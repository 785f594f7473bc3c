//! Spec-level model of the wire format: for every entity a `*_bytes`
//! function giving its canonical encoding, a `parse_*` function giving
//! the unique decode result (value and bytes consumed, or the error) of
//! any input, and a `*_wf` predicate saying when a value is encodable
//! at the widths its header declares.
//!
//! The executable readers and writers are proved equal to these
//! functions; the round-trip laws are stated over them.

use vstd::prelude::*;
use crate::types::{
    ChunkHeader, ChunkView, ConstantView, DebugView, LocalVarView, LuaEndianness, LuaError,
    ProtoView, Upvalue, ValueSize, Version,
};
use crate::numbits::{num32_exact, num32_of, spec_widen};

verus! {

/// Value of the sentinel integer of revision B.
pub const TEST_INT: u64 = 0x5678;

/// 64-bit pattern of the sentinel number of revision B.
pub const NUM_SENTINEL: u64 = 0x4077_2800_0000_0000;

/// 32-bit pattern of the same sentinel number.
pub const NUM_SENTINEL_32: u32 = 0x43B9_4000;

/// Half-width of the pattern interval accepted around the sentinel
/// number: one ten-thousandth of the sentinel's value, expressed as a
/// count of adjacent 64-bit patterns.
pub const NUM_TOLERANCE: u64 = 1_759_218_604;

/// Smallest accepted sentinel number pattern.
pub const NUM_LO: u64 = NUM_SENTINEL - NUM_TOLERANCE;

/// Largest accepted sentinel number pattern.
pub const NUM_HI: u64 = NUM_SENTINEL + NUM_TOLERANCE;

/// Deepest prototype nesting the codec accepts, as a guard against
/// stack exhaustion on adversarial input.
pub const MAX_PROTO_DEPTH: u64 = 200;

/// Whether a sentinel number pattern is within tolerance. Patterns in
/// the interval are exactly the finite values within tolerance of the
/// sentinel, since patterns of positive values are ordered like the
/// values.
pub open spec fn num_sentinel_ok(bits: u64) -> bool {
    NUM_LO <= bits <= NUM_HI
}

// ------------------------------------------------------------------
// Words: unsigned scalars of four or eight bytes, both byte orders.
// ------------------------------------------------------------------

/// Exclusive upper bound of a word of width `w`.
pub open spec fn wmax(w: ValueSize) -> int {
    match w {
        ValueSize::Four => 0x1_0000_0000,
        ValueSize::Eight => 0x1_0000_0000_0000_0000,
    }
}

/// Half of `wmax`: the bound of the non-negative signed range.
pub open spec fn whalf(w: ValueSize) -> int {
    match w {
        ValueSize::Four => 0x8000_0000,
        ValueSize::Eight => 0x8000_0000_0000_0000,
    }
}

/// Whether an unsigned value fits a word of width `w`.
pub open spec fn word_fits(v: u64, w: ValueSize) -> bool {
    v < wmax(w)
}

/// The value of the first `w` bytes of `s` under byte order `e`.
/// Opaque: revealed only where a word is assembled or taken apart.
#[verifier::opaque]
pub open spec fn word_val(s: Seq<u8>, w: ValueSize, e: LuaEndianness) -> int
    recommends
        s.len() >= w.spec_width(),
{
    match (w, e) {
        (ValueSize::Four, LuaEndianness::Little) => s[0] + s[1] * 0x100 + s[2] * 0x1_0000 + s[3]
            * 0x100_0000,
        (ValueSize::Four, LuaEndianness::Big) => s[3] + s[2] * 0x100 + s[1] * 0x1_0000 + s[0]
            * 0x100_0000,
        (ValueSize::Eight, LuaEndianness::Little) => s[0] + s[1] * 0x100 + s[2] * 0x1_0000 + s[3]
            * 0x100_0000 + s[4] * 0x1_0000_0000 + s[5] * 0x100_0000_0000 + s[6]
            * 0x1_0000_0000_0000 + s[7] * 0x100_0000_0000_0000,
        (ValueSize::Eight, LuaEndianness::Big) => s[7] + s[6] * 0x100 + s[5] * 0x1_0000 + s[4]
            * 0x100_0000 + s[3] * 0x1_0000_0000 + s[2] * 0x100_0000_0000 + s[1]
            * 0x1_0000_0000_0000 + s[0] * 0x100_0000_0000_0000,
    }
}

/// The `w` bytes encoding `v` under byte order `e`.
/// Opaque: revealed only where a word is assembled or taken apart.
#[verifier::opaque]
pub open spec fn word_bytes(v: u64, w: ValueSize, e: LuaEndianness) -> Seq<u8>
    recommends
        word_fits(v, w),
{
    match (w, e) {
        (ValueSize::Four, LuaEndianness::Little) => seq![
            (v % 0x100) as u8,
            ((v / 0x100) % 0x100) as u8,
            ((v / 0x1_0000) % 0x100) as u8,
            ((v / 0x100_0000) % 0x100) as u8,
        ],
        (ValueSize::Four, LuaEndianness::Big) => seq![
            ((v / 0x100_0000) % 0x100) as u8,
            ((v / 0x1_0000) % 0x100) as u8,
            ((v / 0x100) % 0x100) as u8,
            (v % 0x100) as u8,
        ],
        (ValueSize::Eight, LuaEndianness::Little) => seq![
            (v % 0x100) as u8,
            ((v / 0x100) % 0x100) as u8,
            ((v / 0x1_0000) % 0x100) as u8,
            ((v / 0x100_0000) % 0x100) as u8,
            ((v / 0x1_0000_0000) % 0x100) as u8,
            ((v / 0x100_0000_0000) % 0x100) as u8,
            ((v / 0x1_0000_0000_0000) % 0x100) as u8,
            ((v / 0x100_0000_0000_0000) % 0x100) as u8,
        ],
        (ValueSize::Eight, LuaEndianness::Big) => seq![
            ((v / 0x100_0000_0000_0000) % 0x100) as u8,
            ((v / 0x1_0000_0000_0000) % 0x100) as u8,
            ((v / 0x100_0000_0000) % 0x100) as u8,
            ((v / 0x1_0000_0000) % 0x100) as u8,
            ((v / 0x100_0000) % 0x100) as u8,
            ((v / 0x1_0000) % 0x100) as u8,
            ((v / 0x100) % 0x100) as u8,
            (v % 0x100) as u8,
        ],
    }
}

/// The encoding of a word has exactly the declared width.
pub broadcast proof fn lemma_word_bytes_len(v: u64, w: ValueSize, e: LuaEndianness)
    ensures
        (#[trigger] word_bytes(v, w, e)).len() == w.spec_width(),
{
    reveal(word_bytes);
}

/// Parses an unsigned word of width `w`.
pub open spec fn parse_word(s: Seq<u8>, w: ValueSize, e: LuaEndianness) -> Result<
    (u64, nat),
    LuaError,
> {
    if s.len() < w.spec_width() {
        Err(LuaError::UnexpectedEndOfInput)
    } else {
        Ok((word_val(s, w, e) as u64, w.spec_width()))
    }
}

/// Parses one byte.
pub open spec fn parse_byte(s: Seq<u8>) -> Result<(u8, nat), LuaError> {
    if s.len() < 1 {
        Err(LuaError::UnexpectedEndOfInput)
    } else {
        Ok((s[0], 1))
    }
}

// ------------------------------------------------------------------
// Signed scalars: two's complement at width `w`.
// ------------------------------------------------------------------

/// Whether a signed value fits a two's-complement word of width `w`.
pub open spec fn int_fits(v: i64, w: ValueSize) -> bool {
    -whalf(w) <= v < whalf(w)
}

/// The unsigned wire value of a signed value at width `w`.
pub open spec fn int_to_wire(v: i64, w: ValueSize) -> u64
    recommends
        int_fits(v, w),
{
    if v >= 0 {
        v as u64
    } else {
        (v + wmax(w)) as u64
    }
}

/// The signed value of an unsigned wire word at width `w`.
pub open spec fn int_from_wire(n: u64, w: ValueSize) -> i64
    recommends
        word_fits(n, w),
{
    if n < whalf(w) {
        n as i64
    } else {
        (n - wmax(w)) as i64
    }
}

/// The bytes of a signed value at width `w`.
pub open spec fn int_bytes_at(v: i64, w: ValueSize, e: LuaEndianness) -> Seq<u8> {
    word_bytes(int_to_wire(v, w), w, e)
}

/// Parses a signed word of width `w`.
pub open spec fn parse_int(s: Seq<u8>, w: ValueSize, e: LuaEndianness) -> Result<
    (i64, nat),
    LuaError,
> {
    match parse_word(s, w, e) {
        Err(er) => Err(er),
        Ok((n, k)) => Ok((int_from_wire(n, w), k)),
    }
}

// ------------------------------------------------------------------
// Sequence counts: signed ints that must fit the host's size type.
// ------------------------------------------------------------------

/// Whether a sequence of length `n` can have its count written at
/// width `w` and read back on this host.
pub open spec fn count_fits(n: nat, w: ValueSize) -> bool {
    n < whalf(w) && n <= usize::MAX
}

/// The bytes of a sequence count.
pub open spec fn count_bytes(n: nat, w: ValueSize, e: LuaEndianness) -> Seq<u8>
    recommends
        count_fits(n, w),
{
    int_bytes_at(n as i64, w, e)
}

/// Parses a sequence count: a signed word, rejected when negative or
/// beyond the host's size type.
#[verifier::opaque]
pub open spec fn parse_count(s: Seq<u8>, w: ValueSize, e: LuaEndianness) -> Result<
    (nat, nat),
    LuaError,
> {
    match parse_int(s, w, e) {
        Err(er) => Err(er),
        Ok((v, k)) => if v < 0 || v > usize::MAX {
            Err(LuaError::LengthOverflow)
        } else {
            Ok((v as nat, k))
        },
    }
}

// ------------------------------------------------------------------
// Numbers: IEEE-754 patterns, widened from 32 bits when `w` is four.
// ------------------------------------------------------------------

/// Whether a 64-bit number pattern is representable at width `w`.
pub open spec fn number_fits(bits: u64, w: ValueSize) -> bool {
    match w {
        ValueSize::Four => num32_exact(bits),
        ValueSize::Eight => true,
    }
}

/// The bytes of a number pattern at width `w`.
pub open spec fn number_bytes(bits: u64, w: ValueSize, e: LuaEndianness) -> Seq<u8>
    recommends
        number_fits(bits, w),
{
    match w {
        ValueSize::Four => word_bytes(num32_of(bits) as u64, ValueSize::Four, e),
        ValueSize::Eight => word_bytes(bits, ValueSize::Eight, e),
    }
}

/// Parses a number of width `w` into its 64-bit pattern.
pub open spec fn parse_number(s: Seq<u8>, w: ValueSize, e: LuaEndianness) -> Result<
    (u64, nat),
    LuaError,
> {
    match parse_word(s, w, e) {
        Err(er) => Err(er),
        Ok((n, k)) => match w {
            ValueSize::Four => Ok((spec_widen(n as u32), k)),
            ValueSize::Eight => Ok((n, k)),
        },
    }
}

// ------------------------------------------------------------------
// Strings: length-delimited byte strings, absent or present.
// ------------------------------------------------------------------

/// The empty sequence for an absent string; used where the format
/// does not care about the distinction.
pub open spec fn str_collapse(o: Option<Seq<u8>>) -> Seq<u8> {
    match o {
        Option::None => Seq::empty(),
        Option::Some(b) => b,
    }
}

/// Whether a present string's length is encodable under header `h`.
pub open spec fn name_wf(b: Seq<u8>, h: ChunkHeader) -> bool {
    match h.version {
        Version::Lua51 => b.len() < wmax(h.size_bytes) && b.len() <= usize::MAX,
        Version::Lua53 => b.len() + 1 < wmax(h.size_bytes) && b.len() <= usize::MAX,
    }
}

/// Whether an optional string can stand where absence is meaningful.
/// Revision A writes an absent string and an empty one identically, so
/// an empty present string is not well-formed there.
pub open spec fn source_wf(o: Option<Seq<u8>>, h: ChunkHeader) -> bool {
    match o {
        Option::None => true,
        Option::Some(b) => name_wf(b, h) && (h.version == Version::Lua51 ==> b.len() >= 1),
    }
}

/// The bytes of an optional string under header `h`.
#[verifier::opaque]
pub open spec fn string_bytes(o: Option<Seq<u8>>, h: ChunkHeader) -> Seq<u8> {
    match h.version {
        Version::Lua51 => match o {
            Option::None => word_bytes(0, h.size_bytes, h.endian),
            Option::Some(b) => word_bytes(b.len() as u64, h.size_bytes, h.endian) + b,
        },
        Version::Lua53 => match o {
            Option::None => seq![0u8],
            Option::Some(b) => if b.len() + 1 < 0xFF {
                seq![(b.len() + 1) as u8] + b
            } else {
                seq![0xFFu8] + word_bytes((b.len() + 1) as u64, h.size_bytes, h.endian) + b
            },
        },
    }
}

/// Parses an optional string under header `h`.
#[verifier::opaque]
pub open spec fn parse_string(s: Seq<u8>, h: ChunkHeader) -> Result<
    (Option<Seq<u8>>, nat),
    LuaError,
> {
    match h.version {
        Version::Lua51 => match parse_word(s, h.size_bytes, h.endian) {
            Err(er) => Err(er),
            Ok((size, k)) => if size == 0 {
                Ok((Option::None, k))
            } else if size > usize::MAX as u64 {
                Err(LuaError::LengthOverflow)
            } else if s.len() < k + size {
                Err(LuaError::UnexpectedEndOfInput)
            } else {
                Ok((Option::Some(s.subrange(k as int, k + size)), (k + size) as nat))
            },
        },
        Version::Lua53 => if s.len() < 1 {
            Err(LuaError::UnexpectedEndOfInput)
        } else if s[0] == 0 {
            Ok((Option::None, 1))
        } else if s[0] < 0xFF {
            let len = (s[0] - 1) as nat;
            if s.len() < 1 + len {
                Err(LuaError::UnexpectedEndOfInput)
            } else {
                Ok((Option::Some(s.subrange(1, 1 + len as int)), 1 + len))
            }
        } else {
            match parse_word(s.skip(1), h.size_bytes, h.endian) {
                Err(er) => Err(er),
                Ok((size, k)) => if size == 0 {
                    Err(LuaError::LengthOverflow)
                } else if size - 1 > usize::MAX as u64 {
                    Err(LuaError::LengthOverflow)
                } else {
                    let len = (size - 1) as nat;
                    if s.len() < 1 + k + len {
                        Err(LuaError::UnexpectedEndOfInput)
                    } else {
                        Ok(
                            (
                                Option::Some(s.subrange(1 + k as int, 1 + k + len as int)),
                                (1 + k + len) as nat,
                            ),
                        )
                    }
                },
            }
        },
    }
}

// ------------------------------------------------------------------
// Constants.
// ------------------------------------------------------------------

/// Whether a constant is encodable under header `h`. Revision A has
/// no integer constant tag.
pub open spec fn const_wf(c: ConstantView, h: ChunkHeader) -> bool {
    match c {
        ConstantView::Nil => true,
        ConstantView::Boolean(_) => true,
        ConstantView::Number(bits) => number_fits(bits, h.lua_number_bytes),
        ConstantView::Integer(v) => h.version == Version::Lua53 && int_fits(
            v,
            h.lua_integer_bytes,
        ),
        ConstantView::String(b) => name_wf(b, h),
    }
}

/// The bytes of a constant: its tag, then its payload. The string tag
/// mirrors the short/long threshold of the string codec.
#[verifier::opaque]
pub open spec fn const_bytes(c: ConstantView, h: ChunkHeader) -> Seq<u8> {
    match c {
        ConstantView::Nil => seq![0u8],
        ConstantView::Boolean(b) => seq![1u8, if b { 1u8 } else { 0u8 }],
        ConstantView::Number(bits) => seq![3u8] + number_bytes(bits, h.lua_number_bytes, h.endian),
        ConstantView::Integer(v) => seq![0x13u8] + int_bytes_at(v, h.lua_integer_bytes, h.endian),
        ConstantView::String(b) => (if h.version == Version::Lua53 && b.len() + 1 >= 0xFF {
            seq![0x14u8]
        } else {
            seq![0x04u8]
        }) + string_bytes(Option::Some(b), h),
    }
}

/// Parses one constant.
#[verifier::opaque]
pub open spec fn parse_constant(s: Seq<u8>, h: ChunkHeader) -> Result<
    (ConstantView, nat),
    LuaError,
> {
    if s.len() < 1 {
        Err(LuaError::UnexpectedEndOfInput)
    } else {
        let t = s[0];
        if t == 0x00 {
            Ok((ConstantView::Nil, 1))
        } else if t == 0x01 {
            if s.len() < 2 {
                Err(LuaError::UnexpectedEndOfInput)
            } else {
                Ok((ConstantView::Boolean(s[1] != 0), 2))
            }
        } else if t == 0x03 {
            match parse_number(s.skip(1), h.lua_number_bytes, h.endian) {
                Err(er) => Err(er),
                Ok((bits, k)) => Ok((ConstantView::Number(bits), 1 + k)),
            }
        } else if t == 0x13 && h.version == Version::Lua53 {
            match parse_int(s.skip(1), h.lua_integer_bytes, h.endian) {
                Err(er) => Err(er),
                Ok((v, k)) => Ok((ConstantView::Integer(v), 1 + k)),
            }
        } else if t == 0x04 || t == 0x14 {
            match parse_string(s.skip(1), h) {
                Err(er) => Err(er),
                Ok((o, k)) => Ok((ConstantView::String(str_collapse(o)), 1 + k)),
            }
        } else {
            Err(LuaError::UnknownConstantTag(t))
        }
    }
}

// ------------------------------------------------------------------
// Upvalues and local-variable records.
// ------------------------------------------------------------------

/// The two bytes of an upvalue entry.
pub open spec fn upvalue_bytes(u: Upvalue) -> Seq<u8> {
    match u {
        Upvalue::Outer(i) => seq![0u8, i],
        Upvalue::Stack(i) => seq![1u8, i],
    }
}

/// Parses one upvalue entry; any nonzero kind byte means a stack
/// capture.
pub open spec fn parse_upvalue(s: Seq<u8>) -> Result<(Upvalue, nat), LuaError> {
    if s.len() < 2 {
        Err(LuaError::UnexpectedEndOfInput)
    } else if s[0] == 0 {
        Ok((Upvalue::Outer(s[1]), 2))
    } else {
        Ok((Upvalue::Stack(s[1]), 2))
    }
}

/// Whether a local-variable record is encodable under header `h`.
pub open spec fn localvar_wf(lv: LocalVarView, h: ChunkHeader) -> bool {
    name_wf(lv.name, h) && int_fits(lv.start_pc, h.int_bytes) && int_fits(lv.end_pc, h.int_bytes)
}

/// The bytes of a local-variable record.
#[verifier::opaque]
pub open spec fn localvar_bytes(lv: LocalVarView, h: ChunkHeader) -> Seq<u8> {
    string_bytes(Option::Some(lv.name), h) + int_bytes_at(lv.start_pc, h.int_bytes, h.endian)
        + int_bytes_at(lv.end_pc, h.int_bytes, h.endian)
}

/// Parses one local-variable record.
#[verifier::opaque]
pub open spec fn parse_localvar(s: Seq<u8>, h: ChunkHeader) -> Result<
    (LocalVarView, nat),
    LuaError,
> {
    match parse_string(s, h) {
        Err(er) => Err(er),
        Ok((o, a)) => match parse_int(s.skip(a as int), h.int_bytes, h.endian) {
            Err(er) => Err(er),
            Ok((sp, b)) => match parse_int(s.skip((a + b) as int), h.int_bytes, h.endian) {
                Err(er) => Err(er),
                Ok((ep, c)) => Ok(
                    (LocalVarView { name: str_collapse(o), start_pc: sp, end_pc: ep }, a + b + c),
                ),
            },
        },
    }
}

// ------------------------------------------------------------------
// Homogeneous lists (the count is parsed separately).
// ------------------------------------------------------------------

/// The concatenated bytes of the instruction list.
pub open spec fn code_list_bytes(items: Seq<u64>, h: ChunkHeader) -> Seq<u8>
    decreases items.len(),
{
    if items.len() == 0 {
        Seq::empty()
    } else {
        word_bytes(items[0], h.inst_bytes, h.endian) + code_list_bytes(
            items.subrange(1, items.len() as int),
            h,
        )
    }
}

/// Parses `n` instructions.
pub open spec fn parse_code_list(s: Seq<u8>, h: ChunkHeader, n: nat) -> Result<
    (Seq<u64>, nat),
    LuaError,
>
    decreases n,
{
    if n == 0 {
        Ok((Seq::empty(), 0))
    } else {
        match parse_word(s, h.inst_bytes, h.endian) {
            Err(er) => Err(er),
            Ok((v, k)) => match parse_code_list(s.skip(k as int), h, (n - 1) as nat) {
                Err(er) => Err(er),
                Ok((vs, m)) => Ok((seq![v] + vs, k + m)),
            },
        }
    }
}

/// The concatenated bytes of the constant pool.
pub open spec fn const_list_bytes(items: Seq<ConstantView>, h: ChunkHeader) -> Seq<u8>
    decreases items.len(),
{
    if items.len() == 0 {
        Seq::empty()
    } else {
        const_bytes(items[0], h) + const_list_bytes(items.subrange(1, items.len() as int), h)
    }
}

/// Parses `n` constants.
pub open spec fn parse_const_list(s: Seq<u8>, h: ChunkHeader, n: nat) -> Result<
    (Seq<ConstantView>, nat),
    LuaError,
>
    decreases n,
{
    if n == 0 {
        Ok((Seq::empty(), 0))
    } else {
        match parse_constant(s, h) {
            Err(er) => Err(er),
            Ok((v, k)) => match parse_const_list(s.skip(k as int), h, (n - 1) as nat) {
                Err(er) => Err(er),
                Ok((vs, m)) => Ok((seq![v] + vs, k + m)),
            },
        }
    }
}

/// The concatenated bytes of the upvalue list.
pub open spec fn upval_list_bytes(items: Seq<Upvalue>) -> Seq<u8>
    decreases items.len(),
{
    if items.len() == 0 {
        Seq::empty()
    } else {
        upvalue_bytes(items[0]) + upval_list_bytes(items.subrange(1, items.len() as int))
    }
}

/// Parses `n` upvalue entries.
pub open spec fn parse_upval_list(s: Seq<u8>, n: nat) -> Result<(Seq<Upvalue>, nat), LuaError>
    decreases n,
{
    if n == 0 {
        Ok((Seq::empty(), 0))
    } else {
        match parse_upvalue(s) {
            Err(er) => Err(er),
            Ok((v, k)) => match parse_upval_list(s.skip(k as int), (n - 1) as nat) {
                Err(er) => Err(er),
                Ok((vs, m)) => Ok((seq![v] + vs, k + m)),
            },
        }
    }
}

/// The concatenated bytes of the line-number table.
pub open spec fn line_list_bytes(items: Seq<i64>, h: ChunkHeader) -> Seq<u8>
    decreases items.len(),
{
    if items.len() == 0 {
        Seq::empty()
    } else {
        int_bytes_at(items[0], h.int_bytes, h.endian) + line_list_bytes(
            items.subrange(1, items.len() as int),
            h,
        )
    }
}

/// Parses `n` line numbers.
pub open spec fn parse_line_list(s: Seq<u8>, h: ChunkHeader, n: nat) -> Result<
    (Seq<i64>, nat),
    LuaError,
>
    decreases n,
{
    if n == 0 {
        Ok((Seq::empty(), 0))
    } else {
        match parse_int(s, h.int_bytes, h.endian) {
            Err(er) => Err(er),
            Ok((v, k)) => match parse_line_list(s.skip(k as int), h, (n - 1) as nat) {
                Err(er) => Err(er),
                Ok((vs, m)) => Ok((seq![v] + vs, k + m)),
            },
        }
    }
}

/// The concatenated bytes of the local-variable table.
pub open spec fn locvar_list_bytes(items: Seq<LocalVarView>, h: ChunkHeader) -> Seq<u8>
    decreases items.len(),
{
    if items.len() == 0 {
        Seq::empty()
    } else {
        localvar_bytes(items[0], h) + locvar_list_bytes(items.subrange(1, items.len() as int), h)
    }
}

/// Parses `n` local-variable records.
pub open spec fn parse_locvar_list(s: Seq<u8>, h: ChunkHeader, n: nat) -> Result<
    (Seq<LocalVarView>, nat),
    LuaError,
>
    decreases n,
{
    if n == 0 {
        Ok((Seq::empty(), 0))
    } else {
        match parse_localvar(s, h) {
            Err(er) => Err(er),
            Ok((v, k)) => match parse_locvar_list(s.skip(k as int), h, (n - 1) as nat) {
                Err(er) => Err(er),
                Ok((vs, m)) => Ok((seq![v] + vs, k + m)),
            },
        }
    }
}

/// The concatenated bytes of the upvalue-name table.
pub open spec fn name_list_bytes(items: Seq<Seq<u8>>, h: ChunkHeader) -> Seq<u8>
    decreases items.len(),
{
    if items.len() == 0 {
        Seq::empty()
    } else {
        string_bytes(Option::Some(items[0]), h) + name_list_bytes(
            items.subrange(1, items.len() as int),
            h,
        )
    }
}

/// Parses `n` upvalue names.
pub open spec fn parse_name_list(s: Seq<u8>, h: ChunkHeader, n: nat) -> Result<
    (Seq<Seq<u8>>, nat),
    LuaError,
>
    decreases n,
{
    if n == 0 {
        Ok((Seq::empty(), 0))
    } else {
        match parse_string(s, h) {
            Err(er) => Err(er),
            Ok((o, k)) => match parse_name_list(s.skip(k as int), h, (n - 1) as nat) {
                Err(er) => Err(er),
                Ok((vs, m)) => Ok((seq![str_collapse(o)] + vs, k + m)),
            },
        }
    }
}

// ------------------------------------------------------------------
// Debug tables.
// ------------------------------------------------------------------

/// Whether the debug tables are encodable under header `h`.
pub open spec fn debug_wf(d: DebugView, h: ChunkHeader) -> bool {
    &&& count_fits(d.lineinfo.len(), h.int_bytes)
    &&& forall|i: int|
        0 <= i < d.lineinfo.len() ==> int_fits(#[trigger] d.lineinfo[i], h.int_bytes)
    &&& count_fits(d.localvars.len(), h.int_bytes)
    &&& forall|i: int| 0 <= i < d.localvars.len() ==> localvar_wf(#[trigger] d.localvars[i], h)
    &&& count_fits(d.upvalues.len(), h.int_bytes)
    &&& forall|i: int| 0 <= i < d.upvalues.len() ==> name_wf(#[trigger] d.upvalues[i], h)
}

/// The bytes of the three debug tables, each preceded by its count.
#[verifier::opaque]
pub open spec fn debug_bytes(d: DebugView, h: ChunkHeader) -> Seq<u8> {
    count_bytes(d.lineinfo.len(), h.int_bytes, h.endian) + line_list_bytes(d.lineinfo, h)
        + count_bytes(d.localvars.len(), h.int_bytes, h.endian) + locvar_list_bytes(
        d.localvars,
        h,
    ) + count_bytes(d.upvalues.len(), h.int_bytes, h.endian) + name_list_bytes(d.upvalues, h)
}

/// Parses the three debug tables.
#[verifier::opaque]
pub open spec fn parse_debug(s: Seq<u8>, h: ChunkHeader) -> Result<(DebugView, nat), LuaError> {
    match parse_count(s, h.int_bytes, h.endian) {
        Err(er) => Err(er),
        Ok((n1, a)) => match parse_line_list(s.skip(a as int), h, n1) {
            Err(er) => Err(er),
            Ok((li, b)) => match parse_count(s.skip((a + b) as int), h.int_bytes, h.endian) {
                Err(er) => Err(er),
                Ok((n2, c)) => match parse_locvar_list(s.skip((a + b + c) as int), h, n2) {
                    Err(er) => Err(er),
                    Ok((lv, d)) => match parse_count(
                        s.skip((a + b + c + d) as int),
                        h.int_bytes,
                        h.endian,
                    ) {
                        Err(er) => Err(er),
                        Ok((n3, e)) => match parse_name_list(
                            s.skip((a + b + c + d + e) as int),
                            h,
                            n3,
                        ) {
                            Err(er) => Err(er),
                            Ok((un, f)) => Ok(
                                (
                                    DebugView { lineinfo: li, localvars: lv, upvalues: un },
                                    a + b + c + d + e + f,
                                ),
                            ),
                        },
                    },
                },
            },
        },
    }
}

// ------------------------------------------------------------------
// Prototypes.
// ------------------------------------------------------------------

/// Whether a prototype tree is encodable under header `h` within
/// `depth` remaining nesting levels.
#[verifier::opaque]
pub open spec fn proto_wf(pv: ProtoView, h: ChunkHeader, depth: nat) -> bool
    decreases pv,
{
    &&& depth > 0
    &&& source_wf(pv.source, h)
    &&& int_fits(pv.line_defined, h.int_bytes)
    &&& int_fits(pv.last_line_defined, h.int_bytes)
    &&& count_fits(pv.code.len(), h.int_bytes)
    &&& forall|i: int| 0 <= i < pv.code.len() ==> word_fits(#[trigger] pv.code[i], h.inst_bytes)
    &&& count_fits(pv.constants.len(), h.int_bytes)
    &&& forall|i: int| 0 <= i < pv.constants.len() ==> const_wf(#[trigger] pv.constants[i], h)
    &&& (h.version == Version::Lua51 ==> pv.upvalues.len() == 0)
    &&& (h.version == Version::Lua53 ==> pv.nups == 0 && count_fits(
        pv.upvalues.len(),
        h.int_bytes,
    ))
    &&& count_fits(pv.protos.len(), h.int_bytes)
    &&& (forall|i: int|
        0 <= i < pv.protos.len() ==> proto_wf(#[trigger] pv.protos[i], h, (depth - 1) as nat))
    &&& debug_wf(pv.debug, h)
}

/// The bytes of one prototype under header `h`.
#[verifier::opaque]
pub open spec fn proto_bytes(pv: ProtoView, h: ChunkHeader) -> Seq<u8>
    decreases pv, 1nat,
{
    string_bytes(pv.source, h) + int_bytes_at(pv.line_defined, h.int_bytes, h.endian)
        + int_bytes_at(pv.last_line_defined, h.int_bytes, h.endian) + (if h.version
        == Version::Lua51 {
        seq![pv.nups]
    } else {
        Seq::<u8>::empty()
    }) + seq![pv.num_params, pv.is_vararg, pv.max_stack_size] + count_bytes(
        pv.code.len(),
        h.int_bytes,
        h.endian,
    ) + code_list_bytes(pv.code, h) + count_bytes(pv.constants.len(), h.int_bytes, h.endian)
        + const_list_bytes(pv.constants, h) + proto_close_bytes(pv, h)
}

/// The bytes of a prototype after its constant pool: the upvalue list
/// of revision B, the nested prototypes and the debug tables.
#[verifier::opaque]
pub open spec fn proto_close_bytes(pv: ProtoView, h: ChunkHeader) -> Seq<u8>
    decreases pv, 0nat,
{
    (if h.version == Version::Lua53 {
        count_bytes(pv.upvalues.len(), h.int_bytes, h.endian) + upval_list_bytes(pv.upvalues)
    } else {
        Seq::<u8>::empty()
    }) + count_bytes(pv.protos.len(), h.int_bytes, h.endian) + proto_list_bytes(pv.protos, h)
        + debug_bytes(pv.debug, h)
}

/// The concatenated bytes of a list of prototypes.
#[verifier::opaque]
pub open spec fn proto_list_bytes(ps: Seq<ProtoView>, h: ChunkHeader) -> Seq<u8>
    decreases ps,
{
    if ps.len() == 0 {
        Seq::empty()
    } else {
        proto_bytes(ps[0], h) + proto_list_bytes(ps.subrange(1, ps.len() as int), h)
    }
}

/// Parses one prototype, refusing to nest deeper than `depth`.
#[verifier::opaque]
pub open spec fn parse_proto(s: Seq<u8>, h: ChunkHeader, depth: nat) -> Result<
    (ProtoView, nat),
    LuaError,
>
    decreases depth, 0nat, 2nat,
{
    if depth == 0 {
        Err(LuaError::NestingTooDeep)
    } else {
        match parse_string(s, h) {
            Err(er) => Err(er),
            Ok((source, n1)) => match parse_int(s.skip(n1 as int), h.int_bytes, h.endian) {
                Err(er) => Err(er),
                Ok((line, n2)) => match parse_int(
                    s.skip((n1 + n2) as int),
                    h.int_bytes,
                    h.endian,
                ) {
                    Err(er) => Err(er),
                    Ok((lastline, n3)) => match (if h.version == Version::Lua51 {
                        parse_byte(s.skip((n1 + n2 + n3) as int))
                    } else {
                        Ok((0u8, 0nat))
                    }) {
                        Err(er) => Err(er),
                        Ok((nups, n4)) => parse_proto_tail(
                            s,
                            h,
                            depth,
                            source,
                            line,
                            lastline,
                            nups,
                            n1 + n2 + n3 + n4,
                        ),
                    },
                },
            },
        }
    }
}

/// Continues `parse_proto` after the source, line range and upvalue
/// count: the three metadata bytes and the counted tables.
#[verifier::opaque]
pub open spec fn parse_proto_tail(
    s: Seq<u8>,
    h: ChunkHeader,
    depth: nat,
    source: Option<Seq<u8>>,
    line: i64,
    lastline: i64,
    nups: u8,
    at: nat,
) -> Result<(ProtoView, nat), LuaError>
    decreases depth, 0nat, 1nat,
{
    if depth == 0 {
        Err(LuaError::NestingTooDeep)
    } else if s.len() < at + 3 {
        Err(LuaError::UnexpectedEndOfInput)
    } else {
        let num_params = s[at as int];
        let is_vararg = s[at as int + 1];
        let max_stack = s[at as int + 2];
        let p0 = at + 3;
        match parse_count(s.skip(p0 as int), h.int_bytes, h.endian) {
            Err(er) => Err(er),
            Ok((ncode, a)) => match parse_code_list(s.skip((p0 + a) as int), h, ncode) {
                Err(er) => Err(er),
                Ok((code, b)) => match parse_count(
                    s.skip((p0 + a + b) as int),
                    h.int_bytes,
                    h.endian,
                ) {
                    Err(er) => Err(er),
                    Ok((nconst, c)) => match parse_const_list(
                        s.skip((p0 + a + b + c) as int),
                        h,
                        nconst,
                    ) {
                        Err(er) => Err(er),
                        Ok((consts, d)) => parse_proto_close(
                            s,
                            h,
                            depth,
                            ProtoView {
                                source,
                                line_defined: line,
                                last_line_defined: lastline,
                                num_params,
                                is_vararg,
                                max_stack_size: max_stack,
                                code,
                                constants: consts,
                                upvalues: Seq::empty(),
                                nups,
                                protos: Seq::empty(),
                                debug: DebugView {
                                    lineinfo: Seq::empty(),
                                    localvars: Seq::empty(),
                                    upvalues: Seq::empty(),
                                },
                            },
                            p0 + a + b + c + d,
                        ),
                    },
                },
            },
        }
    }
}

/// Finishes a prototype after its constant pool: the upvalue list of
/// revision B, the nested prototypes and the debug tables. `head`
/// carries the fields parsed so far; its remaining fields are ignored
/// and replaced.
#[verifier::opaque]
pub open spec fn parse_proto_close(
    s: Seq<u8>,
    h: ChunkHeader,
    depth: nat,
    head: ProtoView,
    at: nat,
) -> Result<(ProtoView, nat), LuaError>
    decreases depth, 0nat, 0nat,
{
    if depth == 0 {
        Err(LuaError::NestingTooDeep)
    } else {
        match (if h.version == Version::Lua53 {
            parse_counted_upvals(s.skip(at as int), h)
        } else {
            Ok((Seq::<Upvalue>::empty(), 0nat))
        }) {
            Err(er) => Err(er),
            Ok((upvals, e)) => match parse_count(
                s.skip((at + e) as int),
                h.int_bytes,
                h.endian,
            ) {
                Err(er) => Err(er),
                Ok((nproto, f)) => match parse_proto_list(
                    s.skip((at + e + f) as int),
                    h,
                    (depth - 1) as nat,
                    nproto,
                ) {
                    Err(er) => Err(er),
                    Ok((protos, g)) => match parse_debug(s.skip((at + e + f + g) as int), h) {
                        Err(er) => Err(er),
                        Ok((dbg, w)) => Ok(
                            (
                                ProtoView { upvalues: upvals, protos, debug: dbg, ..head },
                                at + e + f + g + w,
                            ),
                        ),
                    },
                },
            },
        }
    }
}

/// Parses the revision B upvalue list: its count, then its entries.
#[verifier::opaque]
pub open spec fn parse_counted_upvals(s: Seq<u8>, h: ChunkHeader) -> Result<
    (Seq<Upvalue>, nat),
    LuaError,
> {
    match parse_count(s, h.int_bytes, h.endian) {
        Err(er) => Err(er),
        Ok((n, a)) => match parse_upval_list(s.skip(a as int), n) {
            Err(er) => Err(er),
            Ok((us, b)) => Ok((us, a + b)),
        },
    }
}

/// Parses `n` prototypes, each within `depth` nesting levels.
#[verifier::opaque]
pub open spec fn parse_proto_list(s: Seq<u8>, h: ChunkHeader, depth: nat, n: nat) -> Result<
    (Seq<ProtoView>, nat),
    LuaError,
>
    decreases depth, n, 3nat,
{
    if n == 0 {
        Ok((Seq::empty(), 0))
    } else {
        match parse_proto(s, h, depth) {
            Err(er) => Err(er),
            Ok((v, k)) => match parse_proto_list(s.skip(k as int), h, depth, (n - 1) as nat) {
                Err(er) => Err(er),
                Ok((vs, m)) => Ok((seq![v] + vs, k + m)),
            },
        }
    }
}

/// The empty step of `parse_proto_list`.
pub proof fn lemma_proto_list_zero(s: Seq<u8>, h: ChunkHeader, depth: nat)
    ensures
        parse_proto_list(s, h, depth, 0) == Ok::<(Seq<ProtoView>, nat), LuaError>((
            Seq::empty(),
            0,
        )),
{
    reveal(parse_proto_list);
}

/// One failing step of `parse_proto_list`.
pub proof fn lemma_proto_list_step_err(s: Seq<u8>, h: ChunkHeader, depth: nat, n: nat, e: LuaError)
    requires
        n > 0,
        parse_proto(s, h, depth) == Err::<(ProtoView, nat), LuaError>(e),
    ensures
        parse_proto_list(s, h, depth, n) == Err::<(Seq<ProtoView>, nat), LuaError>(e),
{
    reveal(parse_proto_list);
    reveal(parse_proto);
}

/// One successful step of `parse_proto_list`.
pub proof fn lemma_proto_list_step_ok(
    s: Seq<u8>,
    h: ChunkHeader,
    depth: nat,
    n: nat,
    v: ProtoView,
    k: nat,
)
    requires
        n > 0,
        parse_proto(s, h, depth) == Ok::<(ProtoView, nat), LuaError>((v, k)),
    ensures
        parse_proto_list(s, h, depth, n) == (match parse_proto_list(
            s.skip(k as int),
            h,
            depth,
            (n - 1) as nat,
        ) {
            Ok((vs, m)) => Ok::<(Seq<ProtoView>, nat), LuaError>((seq![v] + vs, (k + m) as nat)),
            Err(er) => Err::<(Seq<ProtoView>, nat), LuaError>(er),
        }),
{
    reveal(parse_proto_list);
    reveal(parse_proto);
}




/// The bytes of an empty prototype list.
pub proof fn lemma_proto_list_bytes_empty(ps: Seq<ProtoView>, h: ChunkHeader)
    requires
        ps.len() == 0,
    ensures
        proto_list_bytes(ps, h) == Seq::<u8>::empty(),
{
    reveal(proto_list_bytes);
}

/// One step of the bytes of a prototype list.
pub proof fn lemma_proto_list_bytes_step(ps: Seq<ProtoView>, h: ChunkHeader)
    requires
        ps.len() > 0,
    ensures
        proto_list_bytes(ps, h) == proto_bytes(ps[0], h) + proto_list_bytes(
            ps.subrange(1, ps.len() as int),
            h,
        ),
{
    reveal(proto_list_bytes);
    reveal(proto_bytes);
}

// ------------------------------------------------------------------
// Header and chunk.
// ------------------------------------------------------------------

/// The version byte of a revision.
pub open spec fn version_byte(v: Version) -> u8 {
    match v {
        Version::Lua51 => 0x51,
        Version::Lua53 => 0x53,
    }
}

/// The revision A endianness byte.
pub open spec fn endian_byte(e: LuaEndianness) -> u8 {
    match e {
        LuaEndianness::Big => 0,
        LuaEndianness::Little => 1,
    }
}

/// A width descriptor byte.
pub open spec fn width_byte(w: ValueSize) -> u8 {
    match w {
        ValueSize::Four => 4,
        ValueSize::Eight => 8,
    }
}

/// The sentinel number bytes of revision B at width `w`.
pub open spec fn sentinel_num_bytes(w: ValueSize, e: LuaEndianness) -> Seq<u8> {
    match w {
        ValueSize::Four => word_bytes(NUM_SENTINEL_32 as u64, ValueSize::Four, e),
        ValueSize::Eight => word_bytes(NUM_SENTINEL, ValueSize::Eight, e),
    }
}

/// Whether a header can be written at all: the fields revision A does
/// not carry hold their fixed defaults there, and conversely.
pub open spec fn header_wf(h: ChunkHeader) -> bool {
    &&& (h.version == Version::Lua51 ==> h.lua_integer_bytes == ValueSize::Eight)
    &&& (h.version == Version::Lua53 ==> !h.integral_flag)
}

/// The bytes of a header.
#[verifier::opaque]
pub open spec fn header_bytes(h: ChunkHeader) -> Seq<u8> {
    match h.version {
        Version::Lua51 => seq![
            0x1Bu8,
            0x4Cu8,
            0x75u8,
            0x61u8,
            0x51u8,
            0u8,
            endian_byte(h.endian),
            width_byte(h.int_bytes),
            width_byte(h.size_bytes),
            width_byte(h.inst_bytes),
            width_byte(h.lua_number_bytes),
            if h.integral_flag {
                1u8
            } else {
                0u8
            },
        ],
        Version::Lua53 => seq![
            0x1Bu8,
            0x4Cu8,
            0x75u8,
            0x61u8,
            0x53u8,
            0u8,
            0x19u8,
            0x93u8,
            0x0Du8,
            0x0Au8,
            0x1Au8,
            0x0Au8,
            width_byte(h.int_bytes),
            width_byte(h.size_bytes),
            width_byte(h.inst_bytes),
            width_byte(h.lua_integer_bytes),
            width_byte(h.lua_number_bytes),
        ] + word_bytes(TEST_INT, h.lua_integer_bytes, h.endian) + sentinel_num_bytes(
            h.lua_number_bytes,
            h.endian,
        ),
    }
}

/// How many bytes a successfully parsed header occupies: fixed for
/// revision A, dependent on the two sentinel widths for revision B.
pub open spec fn header_parsed_len(h: ChunkHeader) -> nat {
    match h.version {
        Version::Lua51 => 12,
        Version::Lua53 => 17 + h.lua_integer_bytes.spec_width()
            + h.lua_number_bytes.spec_width(),
    }
}

/// Maps a width descriptor byte back to a width.
pub open spec fn width_of_byte(b: u8) -> Option<ValueSize> {
    if b == 4 {
        Option::Some(ValueSize::Four)
    } else if b == 8 {
        Option::Some(ValueSize::Eight)
    } else {
        Option::None
    }
}

/// Parses the header: signature, revision, format, then the
/// revision-specific machine description. The alternate-VM container
/// is rejected from its three-byte prefix alone.
#[verifier::opaque]
pub open spec fn parse_header(s: Seq<u8>) -> Result<(ChunkHeader, nat), LuaError> {
    if s.len() < 3 {
        Err(LuaError::UnexpectedEndOfInput)
    } else if s[0] == 0x01 && s[1] == 0x4C && s[2] == 0x4A {
        Err(LuaError::UnsupportedFormat)
    } else if s.len() < 4 {
        Err(LuaError::UnexpectedEndOfInput)
    } else if !(s[0] == 0x1B && s[1] == 0x4C && s[2] == 0x75 && s[3] == 0x61) {
        Err(LuaError::BadSignature)
    } else if s.len() < 5 {
        Err(LuaError::UnexpectedEndOfInput)
    } else if s[4] != 0x51 && s[4] != 0x53 {
        Err(LuaError::UnsupportedVersion(s[4]))
    } else if s.len() < 6 {
        Err(LuaError::UnexpectedEndOfInput)
    } else if s[5] != 0 {
        Err(LuaError::UnsupportedFormat)
    } else if s[4] == 0x51 {
        parse_header_a(s)
    } else {
        parse_header_b(s)
    }
}

/// Parses the revision A remainder of the header: explicit endianness
/// byte, four width descriptors, integral flag.
#[verifier::opaque]
pub open spec fn parse_header_a(s: Seq<u8>) -> Result<(ChunkHeader, nat), LuaError> {
    if s.len() < 7 {
        Err(LuaError::UnexpectedEndOfInput)
    } else if s[6] != 0 && s[6] != 1 {
        Err(LuaError::UnsupportedEndianness(s[6]))
    } else if s.len() < 8 {
        Err(LuaError::UnexpectedEndOfInput)
    } else if width_of_byte(s[7]) is None {
        Err(LuaError::UnsupportedWidth(s[7]))
    } else if s.len() < 9 {
        Err(LuaError::UnexpectedEndOfInput)
    } else if width_of_byte(s[8]) is None {
        Err(LuaError::UnsupportedWidth(s[8]))
    } else if s.len() < 10 {
        Err(LuaError::UnexpectedEndOfInput)
    } else if width_of_byte(s[9]) is None {
        Err(LuaError::UnsupportedWidth(s[9]))
    } else if s.len() < 11 {
        Err(LuaError::UnexpectedEndOfInput)
    } else if width_of_byte(s[10]) is None {
        Err(LuaError::UnsupportedWidth(s[10]))
    } else if s.len() < 12 {
        Err(LuaError::UnexpectedEndOfInput)
    } else {
        Ok(
            (
                ChunkHeader {
                    version: Version::Lua51,
                    endian: if s[6] == 1 {
                        LuaEndianness::Little
                    } else {
                        LuaEndianness::Big
                    },
                    int_bytes: width_of_byte(s[7])->Some_0,
                    size_bytes: width_of_byte(s[8])->Some_0,
                    inst_bytes: width_of_byte(s[9])->Some_0,
                    lua_integer_bytes: ValueSize::Eight,
                    lua_number_bytes: width_of_byte(s[10])->Some_0,
                    integral_flag: s[11] == 1,
                },
                12,
            ),
        )
    }
}

/// Parses the revision B remainder of the header: fixed sentinel
/// data, five width descriptors, then byte-order detection from the
/// sentinel integer and validation of the sentinel number.
#[verifier::opaque]
pub open spec fn parse_header_b(s: Seq<u8>) -> Result<(ChunkHeader, nat), LuaError> {
    if s.len() < 12 {
        Err(LuaError::UnexpectedEndOfInput)
    } else if !(s[6] == 0x19 && s[7] == 0x93 && s[8] == 0x0D && s[9] == 0x0A && s[10] == 0x1A
        && s[11] == 0x0A) {
        Err(LuaError::BadSentinelData)
    } else if s.len() < 13 {
        Err(LuaError::UnexpectedEndOfInput)
    } else if width_of_byte(s[12]) is None {
        Err(LuaError::UnsupportedWidth(s[12]))
    } else if s.len() < 14 {
        Err(LuaError::UnexpectedEndOfInput)
    } else if width_of_byte(s[13]) is None {
        Err(LuaError::UnsupportedWidth(s[13]))
    } else if s.len() < 15 {
        Err(LuaError::UnexpectedEndOfInput)
    } else if width_of_byte(s[14]) is None {
        Err(LuaError::UnsupportedWidth(s[14]))
    } else if s.len() < 16 {
        Err(LuaError::UnexpectedEndOfInput)
    } else if width_of_byte(s[15]) is None {
        Err(LuaError::UnsupportedWidth(s[15]))
    } else if s.len() < 17 {
        Err(LuaError::UnexpectedEndOfInput)
    } else if width_of_byte(s[16]) is None {
        Err(LuaError::UnsupportedWidth(s[16]))
    } else {
        let iw = width_of_byte(s[15])->Some_0;
        let nw = width_of_byte(s[16])->Some_0;
        if s.len() < 17 + iw.spec_width() {
            Err(LuaError::UnexpectedEndOfInput)
        } else if s.len() < 17 + iw.spec_width() + nw.spec_width() {
            Err(LuaError::UnexpectedEndOfInput)
        } else {
            let ival = s.skip(17);
            let nval = s.skip(17 + iw.spec_width() as int);
            let endian = if word_val(ival, iw, LuaEndianness::Big) == TEST_INT {
                Option::Some(LuaEndianness::Big)
            } else if word_val(ival, iw, LuaEndianness::Little) == TEST_INT {
                Option::Some(LuaEndianness::Little)
            } else {
                Option::None
            };
            match endian {
                Option::None => Err(LuaError::BadEndiannessSentinel),
                Option::Some(en) => {
                    let bits = match nw {
                        ValueSize::Four => spec_widen(word_val(nval, nw, en) as u32),
                        ValueSize::Eight => word_val(nval, nw, en) as u64,
                    };
                    if !num_sentinel_ok(bits) {
                        Err(LuaError::BadNumberSentinel)
                    } else {
                        Ok(
                            (
                                ChunkHeader {
                                    version: Version::Lua53,
                                    endian: en,
                                    int_bytes: width_of_byte(s[12])->Some_0,
                                    size_bytes: width_of_byte(s[13])->Some_0,
                                    inst_bytes: width_of_byte(s[14])->Some_0,
                                    lua_integer_bytes: iw,
                                    lua_number_bytes: nw,
                                    integral_flag: false,
                                },
                                17 + iw.spec_width() + nw.spec_width(),
                            ),
                        )
                    }
                },
            }
        }
    }
}

/// Whether a chunk is well-formed: its header is writable and its
/// prototype tree is encodable at the declared widths within the
/// nesting guard.
pub open spec fn chunk_wf(cv: ChunkView) -> bool {
    header_wf(cv.header) && proto_wf(cv.proto, cv.header, MAX_PROTO_DEPTH as nat)
}

/// The bytes of a complete chunk.
pub open spec fn chunk_bytes(cv: ChunkView) -> Seq<u8> {
    header_bytes(cv.header) + proto_bytes(cv.proto, cv.header)
}

/// Parses a complete chunk: the header, then the top-level prototype
/// it configures.
#[verifier::opaque]
pub open spec fn parse_chunk(s: Seq<u8>) -> Result<(ChunkView, nat), LuaError> {
    match parse_header(s) {
        Err(er) => Err(er),
        Ok((h, n)) => match parse_proto(s.skip(n as int), h, MAX_PROTO_DEPTH as nat) {
            Err(er) => Err(er),
            Ok((pv, m)) => Ok((ChunkView { header: h, proto: pv }, n + m)),
        },
    }
}

} // verus!
