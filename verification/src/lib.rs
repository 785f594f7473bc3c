//! Codec for the binary chunk container format of a scripting-language
//! virtual machine: a self-describing serialization of a function-prototype
//! tree (code, constants, nested prototypes, debug tables) in two historical
//! wire-format revisions.
//!
//! The wire format is modelled twice: once as spec-level functions from
//! values to byte sequences and back (`wire`), and once as executable
//! readers and writers (`read`, `write`) proved equal to that model.
//! `laws` states and proves the round-trip guarantees.

pub mod types;
pub mod numbits;
pub mod wire;
pub mod read;
pub mod write;
pub mod laws;
