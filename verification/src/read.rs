//! Executable decoding of binary chunks, proved equal to the parse
//! functions of the wire model: each reader returns exactly the value,
//! consumed length, and error that `wire::parse_*` gives on the bytes
//! at its position.

use vstd::prelude::*;
use crate::types::{
    Chunk, ChunkHeader, Constant, LuaDebug, LuaDebugLocalVar, LuaEndianness, LuaError, Prototype,
    Upvalue, ValueSize, Version,
};
use crate::types::{
    consts_view, locvars_view, names_view, opt_bytes_view, proto_view, protos_view,
};
use crate::wire::{
    header_parsed_len, int_from_wire, parse_byte, parse_chunk, parse_code_list, parse_const_list,
    parse_constant, parse_count, parse_debug, parse_header, parse_int, parse_line_list,
    parse_localvar, parse_locvar_list, parse_name_list, parse_number, parse_proto,
    parse_proto_close, parse_proto_list, parse_proto_tail, parse_string, parse_upval_list, parse_upvalue, parse_word, str_collapse,
    width_of_byte, word_fits, word_val, MAX_PROTO_DEPTH, NUM_HI, NUM_LO, TEST_INT,
};
use crate::types::{ChunkView, ConstantView, DebugView, LocalVarView, ProtoView};
use crate::numbits::widen32;

verus! {

broadcast use vstd::seq_lib::lemma_seq_skip_of_skip;

/// The value of the word of width `w` at offset `at` of `data`, under
/// byte order `e`.
pub fn word_val_at(data: &Vec<u8>, at: usize, w: ValueSize, e: LuaEndianness) -> (r: u64)
    requires
        at + w.spec_width() <= data.len(),
    ensures
        r == word_val(data@.skip(at as int), w, e),
        word_fits(r, w),
{
    let ghost s = data@.skip(at as int);
    proof {
        reveal(crate::wire::word_val);
        assert forall|i: int| 0 <= i < w.spec_width() implies s[i] == data@[at + i] by {}
    }
    match (w, e) {
        (ValueSize::Four, LuaEndianness::Little) => {
            data[at] as u64 + (data[at + 1] as u64) * 0x100 + (data[at + 2] as u64) * 0x1_0000 + (
            data[at + 3] as u64) * 0x100_0000
        },
        (ValueSize::Four, LuaEndianness::Big) => {
            data[at + 3] as u64 + (data[at + 2] as u64) * 0x100 + (data[at + 1] as u64) * 0x1_0000
                + (data[at] as u64) * 0x100_0000
        },
        (ValueSize::Eight, LuaEndianness::Little) => {
            data[at] as u64 + (data[at + 1] as u64) * 0x100 + (data[at + 2] as u64) * 0x1_0000 + (
            data[at + 3] as u64) * 0x100_0000 + (data[at + 4] as u64) * 0x1_0000_0000 + (data[at
                + 5] as u64) * 0x100_0000_0000 + (data[at + 6] as u64) * 0x1_0000_0000_0000 + (
            data[at + 7] as u64) * 0x100_0000_0000_0000
        },
        (ValueSize::Eight, LuaEndianness::Big) => {
            data[at + 7] as u64 + (data[at + 6] as u64) * 0x100 + (data[at + 5] as u64) * 0x1_0000
                + (data[at + 4] as u64) * 0x100_0000 + (data[at + 3] as u64) * 0x1_0000_0000 + (
            data[at + 2] as u64) * 0x100_0000_0000 + (data[at + 1] as u64) * 0x1_0000_0000_0000 + (
            data[at] as u64) * 0x100_0000_0000_0000
        },
    }
}

/// A sequential reader over a byte buffer, configured by the header
/// whose widths and byte order govern every scalar it reads.
pub struct LuaReader {
    /// The header configuring all reads.
    pub header: ChunkHeader,
    /// The current offset into the buffer.
    pub pos: usize,
}

impl LuaReader {
    /// A reader positioned at `pos`, configured by `header`.
    pub fn new(header: ChunkHeader, pos: usize) -> (r: LuaReader)
        ensures
            r.header == header,
            r.pos == pos,
    {
        LuaReader { header, pos }
    }

    /// Reads an unsigned word of width `w`.
    fn read_word(&mut self, data: &Vec<u8>, w: ValueSize) -> (r: Result<u64, LuaError>)
        requires
            old(self).pos <= data@.len(),
        ensures
            final(self).header == old(self).header,
            old(self).pos <= final(self).pos <= data@.len(),
            match r {
                Ok(v) => parse_word(data@.skip(old(self).pos as int), w, final(self).header.endian)
                    == Ok::<(u64, nat), LuaError>((v, (final(self).pos - old(self).pos) as nat))
                    && word_fits(v, w),
                Err(e) => parse_word(data@.skip(old(self).pos as int), w, final(self).header.endian)
                    == Err::<(u64, nat), LuaError>(e) && final(self).pos == old(self).pos,
            },
    {
        let wd = w.width();
        if data.len() - self.pos < wd {
            return Err(LuaError::UnexpectedEndOfInput);
        }
        let v = word_val_at(data, self.pos, w, self.header.endian);
        self.pos = self.pos + wd;
        Ok(v)
    }

    /// Reads one byte.
    fn read_byte(&mut self, data: &Vec<u8>) -> (r: Result<u8, LuaError>)
        requires
            old(self).pos <= data@.len(),
        ensures
            final(self).header == old(self).header,
            old(self).pos <= final(self).pos <= data@.len(),
            match r {
                Ok(v) => parse_byte(data@.skip(old(self).pos as int)) == Ok::<
                    (u8, nat),
                    LuaError,
                >((v, (final(self).pos - old(self).pos) as nat)),
                Err(e) => parse_byte(data@.skip(old(self).pos as int)) == Err::<
                    (u8, nat),
                    LuaError,
                >(e) && final(self).pos == old(self).pos,
            },
    {
        if data.len() - self.pos < 1 {
            return Err(LuaError::UnexpectedEndOfInput);
        }
        let b = data[self.pos];
        self.pos = self.pos + 1;
        Ok(b)
    }

    /// Reads a signed `int` scalar (line numbers, counts).
    pub fn read_lua_int(&mut self, data: &Vec<u8>) -> (r: Result<i64, LuaError>)
        requires
            old(self).pos <= data@.len(),
        ensures
            final(self).header == old(self).header,
            old(self).pos <= final(self).pos <= data@.len(),
            match r {
                Ok(v) => parse_int(
                    data@.skip(old(self).pos as int),
                    final(self).header.int_bytes,
                    final(self).header.endian,
                ) == Ok::<(i64, nat), LuaError>((v, (final(self).pos - old(self).pos) as nat)),
                Err(e) => parse_int(
                    data@.skip(old(self).pos as int),
                    final(self).header.int_bytes,
                    final(self).header.endian,
                ) == Err::<(i64, nat), LuaError>(e) && final(self).pos == old(self).pos,
            },
    {
        let w = self.header.int_bytes;
        let n = self.read_word(data, w)?;
        Ok(Self::wire_to_int(n, w))
    }

    /// Reads an unsigned `size_t` scalar (string sizes).
    pub fn read_lua_size_t(&mut self, data: &Vec<u8>) -> (r: Result<u64, LuaError>)
        requires
            old(self).pos <= data@.len(),
        ensures
            final(self).header == old(self).header,
            old(self).pos <= final(self).pos <= data@.len(),
            match r {
                Ok(v) => parse_word(
                    data@.skip(old(self).pos as int),
                    final(self).header.size_bytes,
                    final(self).header.endian,
                ) == Ok::<(u64, nat), LuaError>((v, (final(self).pos - old(self).pos) as nat)),
                Err(e) => parse_word(
                    data@.skip(old(self).pos as int),
                    final(self).header.size_bytes,
                    final(self).header.endian,
                ) == Err::<(u64, nat), LuaError>(e) && final(self).pos == old(self).pos,
            },
    {
        self.read_word(data, self.header.size_bytes)
    }

    /// Reads a signed integer constant scalar.
    pub fn read_lua_integer(&mut self, data: &Vec<u8>) -> (r: Result<i64, LuaError>)
        requires
            old(self).pos <= data@.len(),
        ensures
            final(self).header == old(self).header,
            old(self).pos <= final(self).pos <= data@.len(),
            match r {
                Ok(v) => parse_int(
                    data@.skip(old(self).pos as int),
                    final(self).header.lua_integer_bytes,
                    final(self).header.endian,
                ) == Ok::<(i64, nat), LuaError>((v, (final(self).pos - old(self).pos) as nat)),
                Err(e) => parse_int(
                    data@.skip(old(self).pos as int),
                    final(self).header.lua_integer_bytes,
                    final(self).header.endian,
                ) == Err::<(i64, nat), LuaError>(e) && final(self).pos == old(self).pos,
            },
    {
        let w = self.header.lua_integer_bytes;
        let n = self.read_word(data, w)?;
        Ok(Self::wire_to_int(n, w))
    }

    /// Reads a number constant scalar into its 64-bit pattern.
    pub fn read_lua_number(&mut self, data: &Vec<u8>) -> (r: Result<u64, LuaError>)
        requires
            old(self).pos <= data@.len(),
        ensures
            final(self).header == old(self).header,
            old(self).pos <= final(self).pos <= data@.len(),
            match r {
                Ok(v) => parse_number(
                    data@.skip(old(self).pos as int),
                    final(self).header.lua_number_bytes,
                    final(self).header.endian,
                ) == Ok::<(u64, nat), LuaError>((v, (final(self).pos - old(self).pos) as nat)),
                Err(e) => parse_number(
                    data@.skip(old(self).pos as int),
                    final(self).header.lua_number_bytes,
                    final(self).header.endian,
                ) == Err::<(u64, nat), LuaError>(e) && final(self).pos == old(self).pos,
            },
    {
        let w = self.header.lua_number_bytes;
        let n = self.read_word(data, w)?;
        match w {
            ValueSize::Four => Ok(widen32(n as u32)),
            ValueSize::Eight => Ok(n),
        }
    }

    /// Reads one instruction scalar.
    pub fn read_lua_instruction(&mut self, data: &Vec<u8>) -> (r: Result<u64, LuaError>)
        requires
            old(self).pos <= data@.len(),
        ensures
            final(self).header == old(self).header,
            old(self).pos <= final(self).pos <= data@.len(),
            match r {
                Ok(v) => parse_word(
                    data@.skip(old(self).pos as int),
                    final(self).header.inst_bytes,
                    final(self).header.endian,
                ) == Ok::<(u64, nat), LuaError>((v, (final(self).pos - old(self).pos) as nat))
                    && word_fits(v, final(self).header.inst_bytes),
                Err(e) => parse_word(
                    data@.skip(old(self).pos as int),
                    final(self).header.inst_bytes,
                    final(self).header.endian,
                ) == Err::<(u64, nat), LuaError>(e) && final(self).pos == old(self).pos,
            },
    {
        self.read_word(data, self.header.inst_bytes)
    }

    /// Reads a sequence count, rejecting counts that do not fit the
    /// host's size type.
    #[verifier::rlimit(100)]
    #[verifier::spinoff_prover]
    fn read_count(&mut self, data: &Vec<u8>) -> (r: Result<usize, LuaError>)
        requires
            old(self).pos <= data@.len(),
        ensures
            final(self).header == old(self).header,
            old(self).pos <= final(self).pos <= data@.len(),
            match r {
                Ok(v) => parse_count(
                    data@.skip(old(self).pos as int),
                    final(self).header.int_bytes,
                    final(self).header.endian,
                ) == Ok::<(nat, nat), LuaError>((v as nat, (final(self).pos - old(self).pos) as nat)),
                Err(e) => parse_count(
                    data@.skip(old(self).pos as int),
                    final(self).header.int_bytes,
                    final(self).header.endian,
                ) == Err::<(nat, nat), LuaError>(e) && old(self).pos <= final(self).pos,
            },
    {
        proof {
            reveal(crate::wire::parse_count);
        }
        let ghost p0 = self.pos;
        let v = self.read_lua_int(data)?;
        if v < 0 {
            return Err(LuaError::LengthOverflow);
        }
        if v as u64 > usize::MAX as u64 {
            return Err(LuaError::LengthOverflow);
        }
        Ok(v as usize)
    }

    /// The signed value of an unsigned wire word at width `w`.
    fn wire_to_int(n: u64, w: ValueSize) -> (r: i64)
        requires
            word_fits(n, w),
        ensures
            r == int_from_wire(n, w),
    {
        match w {
            ValueSize::Four => {
                if n >= 0x8000_0000 {
                    (n as i64) - 0x1_0000_0000
                } else {
                    n as i64
                }
            },
            ValueSize::Eight => {
                if n >= 0x8000_0000_0000_0000 {
                    -((0xFFFF_FFFF_FFFF_FFFFu64 - n) as i64) - 1
                } else {
                    n as i64
                }
            },
        }
    }

    /// Reads `n` raw bytes.
    fn read_bytes(&mut self, data: &Vec<u8>, n: usize) -> (r: Result<Vec<u8>, LuaError>)
        requires
            old(self).pos <= data@.len(),
        ensures
            final(self).header == old(self).header,
            old(self).pos <= final(self).pos <= data@.len(),
            match r {
                Ok(v) => v@ == data@.subrange(old(self).pos as int, old(self).pos + n)
                    && final(self).pos == old(self).pos + n,
                Err(e) => e == LuaError::UnexpectedEndOfInput && data@.len() < old(self).pos + n
                    && final(self).pos == old(self).pos,
            },
    {
        if data.len() - self.pos < n {
            return Err(LuaError::UnexpectedEndOfInput);
        }
        let start = self.pos;
        let mut out: Vec<u8> = Vec::new();
        let mut i: usize = 0;
        while i < n
            invariant
                start + n <= data.len(),
                i <= n,
                out@ =~= data@.subrange(start as int, start + i),
            decreases n - i,
        {
            out.push(data[start + i]);
            i = i + 1;
            proof {
                assert(out@ =~= data@.subrange(start as int, start + i));
            }
        }
        self.pos = start + n;
        Ok(out)
    }

    /// Reads an optional byte string, in the encoding of the
    /// configured revision.
    #[verifier::rlimit(50)]
    #[verifier::spinoff_prover]
    pub fn read_lua_string(&mut self, data: &Vec<u8>) -> (r: Result<Option<Vec<u8>>, LuaError>)
        requires
            old(self).pos <= data@.len(),
        ensures
            final(self).header == old(self).header,
            old(self).pos <= final(self).pos <= data@.len(),
            match r {
                Ok(v) => parse_string(data@.skip(old(self).pos as int), final(self).header) == Ok::<
                    (Option<Seq<u8>>, nat),
                    LuaError,
                >((opt_bytes_view(v), (final(self).pos - old(self).pos) as nat)),
                Err(e) => parse_string(data@.skip(old(self).pos as int), final(self).header) == Err::<
                    (Option<Seq<u8>>, nat),
                    LuaError,
                >(e) && old(self).pos <= final(self).pos,
            },
    {
        proof {
            reveal(crate::wire::parse_string);
        }
        let ghost p0 = self.pos as int;
        let ghost s = data@.skip(p0);
        match self.header.version {
            Version::Lua51 => {
                let size = self.read_lua_size_t(data)?;
                if size == 0 {
                    return Ok(None);
                }
                if size > usize::MAX as u64 {
                    return Err(LuaError::LengthOverflow);
                }
                let ghost k = self.pos - p0;
                let b = self.read_bytes(data, size as usize)?;
                proof {
                    assert(b@ =~= s.subrange(k as int, k + size));
                }
                Ok(Some(b))
            },
            Version::Lua53 => {
                let small = self.read_byte(data)?;
                if small == 0 {
                    return Ok(None);
                }
                if small < 0xFF {
                    let len = (small - 1) as usize;
                    let b = self.read_bytes(data, len)?;
                    proof {
                        assert(b@ =~= s.subrange(1, 1 + len));
                    }
                    return Ok(Some(b));
                }
                let size = self.read_lua_size_t(data)?;
                if size == 0 {
                    return Err(LuaError::LengthOverflow);
                }
                if size - 1 > usize::MAX as u64 {
                    return Err(LuaError::LengthOverflow);
                }
                let len = (size - 1) as usize;
                let ghost k = self.pos - p0 - 1;
                let b = self.read_bytes(data, len)?;
                proof {
                    assert(b@ =~= s.subrange(1 + k as int, 1 + k + len));
                }
                Ok(Some(b))
            },
        }
    }

    /// Reads one constant pool entry: a tag byte, then its payload.
    #[verifier::rlimit(100)]
    #[verifier::spinoff_prover]
    pub fn read_constant(&mut self, data: &Vec<u8>) -> (r: Result<Constant, LuaError>)
        requires
            old(self).pos <= data@.len(),
        ensures
            final(self).header == old(self).header,
            old(self).pos <= final(self).pos <= data@.len(),
            match r {
                Ok(v) => parse_constant(data@.skip(old(self).pos as int), final(self).header)
                    == Ok::<(ConstantView, nat), LuaError>((
                    v@,
                    (final(self).pos - old(self).pos) as nat,
                )),
                Err(e) => parse_constant(data@.skip(old(self).pos as int), final(self).header)
                    == Err::<(ConstantView, nat), LuaError>(e) && old(self).pos <= final(self).pos,
            },
    {
        proof {
            reveal(crate::wire::parse_constant);
        }
        let ghost p0 = self.pos as int;
        let ghost s = data@.skip(p0);
        let t = self.read_byte(data)?;
        if t == 0x00 {
            Ok(Constant::Nil)
        } else if t == 0x01 {
            let b = self.read_byte(data)?;
            Ok(Constant::Boolean(b != 0))
        } else if t == 0x03 {
            let bits = self.read_lua_number(data)?;
            Ok(Constant::Number(bits))
        } else if t == 0x13 && self.header.version == Version::Lua53 {
            let v = self.read_lua_integer(data)?;
            Ok(Constant::Integer(v))
        } else if t == 0x04 || t == 0x14 {
            let o = self.read_lua_string(data)?;
            Ok(
                Constant::String(
                    match o {
                        Some(v) => v,
                        None => Vec::new(),
                    },
                ),
            )
        } else {
            Err(LuaError::UnknownConstantTag(t))
        }
    }

    /// Reads one upvalue entry: the capture kind byte, then the index.
    pub fn read_upvalue(&mut self, data: &Vec<u8>) -> (r: Result<Upvalue, LuaError>)
        requires
            old(self).pos <= data@.len(),
        ensures
            final(self).header == old(self).header,
            old(self).pos <= final(self).pos <= data@.len(),
            match r {
                Ok(v) => parse_upvalue(data@.skip(old(self).pos as int)) == Ok::<
                    (Upvalue, nat),
                    LuaError,
                >((v, (final(self).pos - old(self).pos) as nat)),
                Err(e) => parse_upvalue(data@.skip(old(self).pos as int)) == Err::<
                    (Upvalue, nat),
                    LuaError,
                >(e) && old(self).pos <= final(self).pos,
            },
    {
        let k = self.read_byte(data)?;
        let i = self.read_byte(data)?;
        if k == 0 {
            Ok(Upvalue::Outer(i))
        } else {
            Ok(Upvalue::Stack(i))
        }
    }

    /// Reads one local-variable debug record.
    #[verifier::rlimit(100)]
    #[verifier::spinoff_prover]
    pub fn read_localvar(&mut self, data: &Vec<u8>) -> (r: Result<LuaDebugLocalVar, LuaError>)
        requires
            old(self).pos <= data@.len(),
        ensures
            final(self).header == old(self).header,
            old(self).pos <= final(self).pos <= data@.len(),
            match r {
                Ok(v) => parse_localvar(data@.skip(old(self).pos as int), final(self).header)
                    == Ok::<(LocalVarView, nat), LuaError>((
                    v@,
                    (final(self).pos - old(self).pos) as nat,
                )),
                Err(e) => parse_localvar(data@.skip(old(self).pos as int), final(self).header)
                    == Err::<(LocalVarView, nat), LuaError>(e) && old(self).pos <= final(self).pos,
            },
    {
        proof {
            reveal(crate::wire::parse_localvar);
        }
        let o = self.read_lua_string(data)?;
        let sp = self.read_lua_int(data)?;
        let ep = self.read_lua_int(data)?;
        Ok(
            LuaDebugLocalVar {
                name: match o {
                    Some(v) => v,
                    None => Vec::new(),
                },
                start_pc: sp,
                end_pc: ep,
            },
        )
    }

    /// Reads `n` instruction scalars.
    #[verifier::loop_isolation(false)]
    #[verifier::rlimit(100)]
    #[verifier::spinoff_prover]
    fn read_code_list(&mut self, data: &Vec<u8>, n: usize) -> (r: Result<Vec<u64>, LuaError>)
        requires
            old(self).pos <= data@.len(),
        ensures
            final(self).header == old(self).header,
            old(self).pos <= final(self).pos <= data@.len(),
            match r {
                Ok(v) => parse_code_list(
                    data@.skip(old(self).pos as int),
                    final(self).header,
                    n as nat,
                ) == Ok::<(Seq<u64>, nat), LuaError>((
                    v@,
                    (final(self).pos - old(self).pos) as nat,
                )),
                Err(e) => parse_code_list(
                    data@.skip(old(self).pos as int),
                    final(self).header,
                    n as nat,
                ) == Err::<(Seq<u64>, nat), LuaError>(e) && old(self).pos <= final(self).pos,
            },
    {
        let ghost p0 = self.pos as int;
        let ghost s0 = data@.skip(p0);
        let ghost h = self.header;
        let mut out: Vec<u64> = Vec::new();
        let mut i: usize = 0;
        while i < n
            invariant
                self.header == h,
                0 <= p0 <= self.pos <= data@.len(),
                i <= n,
                out@.len() == i,
                match parse_code_list(data@.skip(self.pos as int), h, (n - i) as nat) {
                    Ok(pr) => parse_code_list(s0, h, n as nat) == Ok::<(Seq<u64>, nat), LuaError>((
                        out@ + pr.0,
                        (self.pos - p0 + pr.1) as nat,
                    )),
                    Err(e) => parse_code_list(s0, h, n as nat) == Err::<(Seq<u64>, nat), LuaError>(
                        e,
                    ),
                },
            decreases n - i,
        {
            let ghost pos_i = self.pos as int;
            let v = match self.read_lua_instruction(data) {
                Ok(v) => v,
                Err(e) => {
                    proof {
                        assert(parse_code_list(data@.skip(pos_i), h, (n - i) as nat) == Err::<
                            (Seq<u64>, nat),
                            LuaError,
                        >(e));
                    }
                    return Err(e);
                },
            };
            let ghost out0 = out@;
            out.push(v);
            i = i + 1;
            proof {
                let k = self.pos - pos_i;
                assert(data@.skip(pos_i).skip(k as int) == data@.skip(self.pos as int));
                match parse_code_list(data@.skip(self.pos as int), h, (n - i) as nat) {
                    Ok(pr) => {
                        assert(out@ + pr.0 =~= out0 + (seq![v] + pr.0));
                    },
                    Err(e) => {},
                }
            }
        }
        proof {
            assert(out@ + Seq::<u64>::empty() =~= out@);
        }
        Ok(out)
    }

    /// Reads `n` constant pool entries.
    #[verifier::loop_isolation(false)]
    #[verifier::rlimit(100)]
    #[verifier::spinoff_prover]
    fn read_const_list(&mut self, data: &Vec<u8>, n: usize) -> (r: Result<Vec<Constant>, LuaError>)
        requires
            old(self).pos <= data@.len(),
        ensures
            final(self).header == old(self).header,
            old(self).pos <= final(self).pos <= data@.len(),
            match r {
                Ok(v) => parse_const_list(
                    data@.skip(old(self).pos as int),
                    final(self).header,
                    n as nat,
                ) == Ok::<(Seq<ConstantView>, nat), LuaError>((
                    consts_view(v),
                    (final(self).pos - old(self).pos) as nat,
                )),
                Err(e) => parse_const_list(
                    data@.skip(old(self).pos as int),
                    final(self).header,
                    n as nat,
                ) == Err::<(Seq<ConstantView>, nat), LuaError>(e) && old(self).pos <= final(self).pos,
            },
    {
        let ghost p0 = self.pos as int;
        let ghost s0 = data@.skip(p0);
        let ghost h = self.header;
        let mut out: Vec<Constant> = Vec::new();
        let mut i: usize = 0;
        while i < n
            invariant
                self.header == h,
                0 <= p0 <= self.pos <= data@.len(),
                i <= n,
                out@.len() == i,
                match parse_const_list(data@.skip(self.pos as int), h, (n - i) as nat) {
                    Ok(pr) => parse_const_list(s0, h, n as nat) == Ok::<(Seq<ConstantView>, nat), LuaError>((
                        consts_view(out) + pr.0,
                        (self.pos - p0 + pr.1) as nat,
                    )),
                    Err(e) => parse_const_list(s0, h, n as nat) == Err::<(Seq<ConstantView>, nat), LuaError>(
                        e,
                    ),
                },
            decreases n - i,
        {
            let ghost pos_i = self.pos as int;
            let v = match self.read_constant(data) {
                Ok(v) => v,
                Err(e) => {
                    proof {
                        assert(parse_const_list(data@.skip(pos_i), h, (n - i) as nat) == Err::<
                            (Seq<ConstantView>, nat),
                            LuaError,
                        >(e));
                    }
                    return Err(e);
                },
            };
            let ghost out0 = out;
            let ghost itemview = v@;
            out.push(v);
            i = i + 1;
            proof {
                let k = self.pos - pos_i;
                assert(data@.skip(pos_i).skip(k as int) == data@.skip(self.pos as int));
                assert(consts_view(out) =~= consts_view(out0).push(itemview));
                match parse_const_list(data@.skip(self.pos as int), h, (n - i) as nat) {
                    Ok(pr) => {
                        assert(consts_view(out) + pr.0 =~= consts_view(out0) + (seq![itemview] + pr.0));
                    },
                    Err(e) => {},
                }
            }
        }
        proof {
            assert(consts_view(out) + Seq::<ConstantView>::empty() =~= consts_view(out));
        }
        Ok(out)
    }

    /// Reads `n` upvalue entries.
    #[verifier::loop_isolation(false)]
    #[verifier::rlimit(100)]
    #[verifier::spinoff_prover]
    fn read_upval_list(&mut self, data: &Vec<u8>, n: usize) -> (r: Result<Vec<Upvalue>, LuaError>)
        requires
            old(self).pos <= data@.len(),
        ensures
            final(self).header == old(self).header,
            old(self).pos <= final(self).pos <= data@.len(),
            match r {
                Ok(v) => parse_upval_list(data@.skip(old(self).pos as int), n as nat) == Ok::<(Seq<Upvalue>, nat), LuaError>((
                    v@,
                    (final(self).pos - old(self).pos) as nat,
                )),
                Err(e) => parse_upval_list(data@.skip(old(self).pos as int), n as nat) == Err::<(Seq<Upvalue>, nat), LuaError>(e) && old(self).pos <= final(self).pos,
            },
    {
        let ghost p0 = self.pos as int;
        let ghost s0 = data@.skip(p0);
        let ghost h = self.header;
        let mut out: Vec<Upvalue> = Vec::new();
        let mut i: usize = 0;
        while i < n
            invariant
                self.header == h,
                0 <= p0 <= self.pos <= data@.len(),
                i <= n,
                out@.len() == i,
                match parse_upval_list(data@.skip(self.pos as int), (n - i) as nat) {
                    Ok(pr) => parse_upval_list(s0, n as nat) == Ok::<(Seq<Upvalue>, nat), LuaError>((
                        out@ + pr.0,
                        (self.pos - p0 + pr.1) as nat,
                    )),
                    Err(e) => parse_upval_list(s0, n as nat) == Err::<(Seq<Upvalue>, nat), LuaError>(
                        e,
                    ),
                },
            decreases n - i,
        {
            let ghost pos_i = self.pos as int;
            let v = match self.read_upvalue(data) {
                Ok(v) => v,
                Err(e) => {
                    proof {
                        assert(parse_upval_list(data@.skip(pos_i), (n - i) as nat) == Err::<
                            (Seq<Upvalue>, nat),
                            LuaError,
                        >(e));
                    }
                    return Err(e);
                },
            };
            let ghost out0 = out;
            let ghost itemview = v;
            out.push(v);
            i = i + 1;
            proof {
                let k = self.pos - pos_i;
                assert(data@.skip(pos_i).skip(k as int) == data@.skip(self.pos as int));
                assert(out@ =~= out0@.push(itemview));
                match parse_upval_list(data@.skip(self.pos as int), (n - i) as nat) {
                    Ok(pr) => {
                        assert(out@ + pr.0 =~= out0@ + (seq![itemview] + pr.0));
                    },
                    Err(e) => {},
                }
            }
        }
        proof {
            assert(out@ + Seq::<Upvalue>::empty() =~= out@);
        }
        Ok(out)
    }

    /// Reads `n` line numbers.
    #[verifier::loop_isolation(false)]
    #[verifier::rlimit(100)]
    #[verifier::spinoff_prover]
    fn read_line_list(&mut self, data: &Vec<u8>, n: usize) -> (r: Result<Vec<i64>, LuaError>)
        requires
            old(self).pos <= data@.len(),
        ensures
            final(self).header == old(self).header,
            old(self).pos <= final(self).pos <= data@.len(),
            match r {
                Ok(v) => parse_line_list(
                    data@.skip(old(self).pos as int),
                    final(self).header,
                    n as nat,
                ) == Ok::<(Seq<i64>, nat), LuaError>((
                    v@,
                    (final(self).pos - old(self).pos) as nat,
                )),
                Err(e) => parse_line_list(
                    data@.skip(old(self).pos as int),
                    final(self).header,
                    n as nat,
                ) == Err::<(Seq<i64>, nat), LuaError>(e) && old(self).pos <= final(self).pos,
            },
    {
        let ghost p0 = self.pos as int;
        let ghost s0 = data@.skip(p0);
        let ghost h = self.header;
        let mut out: Vec<i64> = Vec::new();
        let mut i: usize = 0;
        while i < n
            invariant
                self.header == h,
                0 <= p0 <= self.pos <= data@.len(),
                i <= n,
                out@.len() == i,
                match parse_line_list(data@.skip(self.pos as int), h, (n - i) as nat) {
                    Ok(pr) => parse_line_list(s0, h, n as nat) == Ok::<(Seq<i64>, nat), LuaError>((
                        out@ + pr.0,
                        (self.pos - p0 + pr.1) as nat,
                    )),
                    Err(e) => parse_line_list(s0, h, n as nat) == Err::<(Seq<i64>, nat), LuaError>(
                        e,
                    ),
                },
            decreases n - i,
        {
            let ghost pos_i = self.pos as int;
            let v = match self.read_lua_int(data) {
                Ok(v) => v,
                Err(e) => {
                    proof {
                        assert(parse_line_list(data@.skip(pos_i), h, (n - i) as nat) == Err::<
                            (Seq<i64>, nat),
                            LuaError,
                        >(e));
                    }
                    return Err(e);
                },
            };
            let ghost out0 = out;
            let ghost itemview = v;
            out.push(v);
            i = i + 1;
            proof {
                let k = self.pos - pos_i;
                assert(data@.skip(pos_i).skip(k as int) == data@.skip(self.pos as int));
                assert(out@ =~= out0@.push(itemview));
                match parse_line_list(data@.skip(self.pos as int), h, (n - i) as nat) {
                    Ok(pr) => {
                        assert(out@ + pr.0 =~= out0@ + (seq![itemview] + pr.0));
                    },
                    Err(e) => {},
                }
            }
        }
        proof {
            assert(out@ + Seq::<i64>::empty() =~= out@);
        }
        Ok(out)
    }

    /// Reads `n` local-variable records.
    #[verifier::loop_isolation(false)]
    #[verifier::rlimit(50)]
    #[verifier::spinoff_prover]
    fn read_locvar_list(&mut self, data: &Vec<u8>, n: usize) -> (r: Result<Vec<LuaDebugLocalVar>, LuaError>)
        requires
            old(self).pos <= data@.len(),
        ensures
            final(self).header == old(self).header,
            old(self).pos <= final(self).pos <= data@.len(),
            match r {
                Ok(v) => parse_locvar_list(
                    data@.skip(old(self).pos as int),
                    final(self).header,
                    n as nat,
                ) == Ok::<(Seq<LocalVarView>, nat), LuaError>((
                    locvars_view(v),
                    (final(self).pos - old(self).pos) as nat,
                )),
                Err(e) => parse_locvar_list(
                    data@.skip(old(self).pos as int),
                    final(self).header,
                    n as nat,
                ) == Err::<(Seq<LocalVarView>, nat), LuaError>(e) && old(self).pos <= final(self).pos,
            },
    {
        let ghost p0 = self.pos as int;
        let ghost s0 = data@.skip(p0);
        let ghost h = self.header;
        let mut out: Vec<LuaDebugLocalVar> = Vec::new();
        let mut i: usize = 0;
        while i < n
            invariant
                self.header == h,
                0 <= p0 <= self.pos <= data@.len(),
                i <= n,
                out@.len() == i,
                match parse_locvar_list(data@.skip(self.pos as int), h, (n - i) as nat) {
                    Ok(pr) => parse_locvar_list(s0, h, n as nat) == Ok::<(Seq<LocalVarView>, nat), LuaError>((
                        locvars_view(out) + pr.0,
                        (self.pos - p0 + pr.1) as nat,
                    )),
                    Err(e) => parse_locvar_list(s0, h, n as nat) == Err::<(Seq<LocalVarView>, nat), LuaError>(
                        e,
                    ),
                },
            decreases n - i,
        {
            let ghost pos_i = self.pos as int;
            let v = match self.read_localvar(data) {
                Ok(v) => v,
                Err(e) => {
                    proof {
                        assert(parse_locvar_list(data@.skip(pos_i), h, (n - i) as nat) == Err::<
                            (Seq<LocalVarView>, nat),
                            LuaError,
                        >(e));
                    }
                    return Err(e);
                },
            };
            let ghost out0 = out;
            let ghost itemview = v@;
            out.push(v);
            i = i + 1;
            proof {
                let k = self.pos - pos_i;
                assert(data@.skip(pos_i).skip(k as int) == data@.skip(self.pos as int));
                assert(locvars_view(out) =~= locvars_view(out0).push(itemview));
                match parse_locvar_list(data@.skip(self.pos as int), h, (n - i) as nat) {
                    Ok(pr) => {
                        assert(locvars_view(out) + pr.0 =~= locvars_view(out0) + (seq![itemview] + pr.0));
                    },
                    Err(e) => {},
                }
            }
        }
        proof {
            assert(locvars_view(out) + Seq::<LocalVarView>::empty() =~= locvars_view(out));
        }
        Ok(out)
    }

    /// Reads `n` upvalue names.
    #[verifier::loop_isolation(false)]
    #[verifier::rlimit(100)]
    #[verifier::spinoff_prover]
    fn read_name_list(&mut self, data: &Vec<u8>, n: usize) -> (r: Result<Vec<Vec<u8>>, LuaError>)
        requires
            old(self).pos <= data@.len(),
        ensures
            final(self).header == old(self).header,
            old(self).pos <= final(self).pos <= data@.len(),
            match r {
                Ok(v) => parse_name_list(
                    data@.skip(old(self).pos as int),
                    final(self).header,
                    n as nat,
                ) == Ok::<(Seq<Seq<u8>>, nat), LuaError>((
                    names_view(v),
                    (final(self).pos - old(self).pos) as nat,
                )),
                Err(e) => parse_name_list(
                    data@.skip(old(self).pos as int),
                    final(self).header,
                    n as nat,
                ) == Err::<(Seq<Seq<u8>>, nat), LuaError>(e) && old(self).pos <= final(self).pos,
            },
    {
        let ghost p0 = self.pos as int;
        let ghost s0 = data@.skip(p0);
        let ghost h = self.header;
        let mut out: Vec<Vec<u8>> = Vec::new();
        let mut i: usize = 0;
        while i < n
            invariant
                self.header == h,
                0 <= p0 <= self.pos <= data@.len(),
                i <= n,
                out@.len() == i,
                match parse_name_list(data@.skip(self.pos as int), h, (n - i) as nat) {
                    Ok(pr) => parse_name_list(s0, h, n as nat) == Ok::<(Seq<Seq<u8>>, nat), LuaError>((
                        names_view(out) + pr.0,
                        (self.pos - p0 + pr.1) as nat,
                    )),
                    Err(e) => parse_name_list(s0, h, n as nat) == Err::<(Seq<Seq<u8>>, nat), LuaError>(
                        e,
                    ),
                },
            decreases n - i,
        {
            let ghost pos_i = self.pos as int;
            let v = match self.read_lua_string(data) {
                Ok(v) => v,
                Err(e) => {
                    proof {
                        assert(parse_name_list(data@.skip(pos_i), h, (n - i) as nat) == Err::<
                            (Seq<Seq<u8>>, nat),
                            LuaError,
                        >(e));
                    }
                    return Err(e);
                },
            };
            let ghost out0 = out;
            let ghost itemview = str_collapse(opt_bytes_view(v));
            out.push(
                match v {
                    Some(b) => b,
                    None => Vec::new(),
                },
            );
            i = i + 1;
            proof {
                let k = self.pos - pos_i;
                assert(data@.skip(pos_i).skip(k as int) == data@.skip(self.pos as int));
                assert(names_view(out) =~= names_view(out0).push(itemview));
                match parse_name_list(data@.skip(self.pos as int), h, (n - i) as nat) {
                    Ok(pr) => {
                        assert(names_view(out) + pr.0 =~= names_view(out0) + (seq![itemview] + pr.0));
                    },
                    Err(e) => {},
                }
            }
        }
        proof {
            assert(names_view(out) + Seq::<Seq<u8>>::empty() =~= names_view(out));
        }
        Ok(out)
    }

    /// Reads the three debug tables.
    #[verifier::rlimit(100)]
    #[verifier::spinoff_prover]
    pub fn read_lua_debug(&mut self, data: &Vec<u8>) -> (r: Result<LuaDebug, LuaError>)
        requires
            old(self).pos <= data@.len(),
        ensures
            final(self).header == old(self).header,
            old(self).pos <= final(self).pos <= data@.len(),
            match r {
                Ok(v) => parse_debug(data@.skip(old(self).pos as int), final(self).header)
                    == Ok::<(DebugView, nat), LuaError>((
                    v@,
                    (final(self).pos - old(self).pos) as nat,
                )),
                Err(e) => parse_debug(data@.skip(old(self).pos as int), final(self).header)
                    == Err::<(DebugView, nat), LuaError>(e) && old(self).pos <= final(self).pos,
            },
    {
        proof {
            reveal(crate::wire::parse_debug);
        }
        let n1 = self.read_count(data)?;
        let li = self.read_line_list(data, n1)?;
        let n2 = self.read_count(data)?;
        let lv = self.read_locvar_list(data, n2)?;
        let n3 = self.read_count(data)?;
        let un = self.read_name_list(data, n3)?;
        Ok(LuaDebug { lineinfo: li, localvars: lv, upvalues: un })
    }

    /// Reads one prototype within `depth` remaining nesting levels.
    #[verifier::rlimit(60)]
    #[verifier::spinoff_prover]
    fn read_proto_at(&mut self, data: &Vec<u8>, depth: u64) -> (r: Result<Prototype, LuaError>)
        requires
            old(self).pos <= data@.len(),
        ensures
            final(self).header == old(self).header,
            old(self).pos <= final(self).pos <= data@.len(),
            match r {
                Ok(v) => parse_proto(
                    data@.skip(old(self).pos as int),
                    final(self).header,
                    depth as nat,
                ) == Ok::<(ProtoView, nat), LuaError>((
                    proto_view(v),
                    (final(self).pos - old(self).pos) as nat,
                )),
                Err(e) => parse_proto(
                    data@.skip(old(self).pos as int),
                    final(self).header,
                    depth as nat,
                ) == Err::<(ProtoView, nat), LuaError>(e) && old(self).pos <= final(self).pos,
            },
        decreases depth, 2nat,
    {
        proof {
            reveal(crate::wire::parse_proto);
            reveal(crate::wire::parse_proto_tail);
        }
        if depth == 0 {
            return Err(LuaError::NestingTooDeep);
        }
        let ghost p0 = self.pos as int;
        let source = self.read_lua_string(data)?;
        let line = self.read_lua_int(data)?;
        let lastline = self.read_lua_int(data)?;
        let nups = if self.header.version == Version::Lua51 {
            self.read_byte(data)?
        } else {
            0
        };
        self.read_proto_tail(data, depth, source, line, lastline, nups, Ghost(p0))
    }

    /// Reads the remainder of a prototype after its source, line range
    /// and upvalue count: the metadata bytes and the counted tables.
    #[verifier::rlimit(100)]
    #[verifier::spinoff_prover]
    fn read_proto_tail(
        &mut self,
        data: &Vec<u8>,
        depth: u64,
        source: Option<Vec<u8>>,
        line: i64,
        lastline: i64,
        nups: u8,
        Ghost(p0): Ghost<int>,
    ) -> (r: Result<Prototype, LuaError>)
        requires
            depth >= 1,
            0 <= p0 <= old(self).pos <= data@.len(),
        ensures
            final(self).header == old(self).header,
            old(self).pos <= final(self).pos <= data@.len(),
            match r {
                Ok(v) => parse_proto_tail(
                    data@.skip(p0),
                    final(self).header,
                    depth as nat,
                    opt_bytes_view(source),
                    line,
                    lastline,
                    nups,
                    (old(self).pos - p0) as nat,
                ) == Ok::<(ProtoView, nat), LuaError>((
                    proto_view(v),
                    (final(self).pos - p0) as nat,
                )),
                Err(e) => parse_proto_tail(
                    data@.skip(p0),
                    final(self).header,
                    depth as nat,
                    opt_bytes_view(source),
                    line,
                    lastline,
                    nups,
                    (old(self).pos - p0) as nat,
                ) == Err::<(ProtoView, nat), LuaError>(e) && old(self).pos <= final(self).pos,
            },
        decreases depth, 1nat,
    {
        proof {
            reveal(crate::wire::parse_proto_tail);
            reveal(crate::wire::parse_proto_close);
        }
        let ghost s = data@.skip(p0);
        let ghost at = (self.pos - p0) as nat;
        if data.len() - self.pos < 3 {
            return Err(LuaError::UnexpectedEndOfInput);
        }
        let num_params = data[self.pos];
        let is_vararg = data[self.pos + 1];
        let max_stack = data[self.pos + 2];
        proof {
            assert(s[at as int] == num_params && s[at as int + 1] == is_vararg && s[at as int + 2]
                == max_stack);
        }
        self.pos = self.pos + 3;
        let ncode = self.read_count(data)?;
        let code = self.read_code_list(data, ncode)?;
        let nconst = self.read_count(data)?;
        let consts = self.read_const_list(data, nconst)?;
        let head = Prototype {
            source,
            line_defined: line,
            last_line_defined: lastline,
            num_params,
            is_vararg,
            max_stack_size: max_stack,
            code,
            constants: consts,
            upvalues: Vec::new(),
            nups,
            protos: Vec::new(),
            debug: LuaDebug { lineinfo: Vec::new(), localvars: Vec::new(), upvalues: Vec::new() },
        };
        proof {
            crate::types::lemma_proto_view_protos(head);
            assert(proto_view(head).protos =~= Seq::<ProtoView>::empty());
            assert(proto_view(head).constants =~= consts_view(consts));
            assert(proto_view(head).debug.localvars =~= Seq::<LocalVarView>::empty());
            assert(proto_view(head).debug.upvalues =~= Seq::<Seq<u8>>::empty());
        }
        self.read_proto_close(data, depth, head, Ghost(p0))
    }

    /// Reads the remainder of a prototype after its constant pool: the
    /// upvalue list of revision B, the nested prototypes and the debug
    /// tables.
    #[verifier::rlimit(100)]
    #[verifier::spinoff_prover]
    fn read_proto_close(
        &mut self,
        data: &Vec<u8>,
        depth: u64,
        head: Prototype,
        Ghost(p0): Ghost<int>,
    ) -> (r: Result<Prototype, LuaError>)
        requires
            depth >= 1,
            0 <= p0 <= old(self).pos <= data@.len(),
        ensures
            final(self).header == old(self).header,
            old(self).pos <= final(self).pos <= data@.len(),
            match r {
                Ok(v) => parse_proto_close(
                    data@.skip(p0),
                    final(self).header,
                    depth as nat,
                    proto_view(head),
                    (old(self).pos - p0) as nat,
                ) == Ok::<(ProtoView, nat), LuaError>((
                    proto_view(v),
                    (final(self).pos - p0) as nat,
                )),
                Err(e) => parse_proto_close(
                    data@.skip(p0),
                    final(self).header,
                    depth as nat,
                    proto_view(head),
                    (old(self).pos - p0) as nat,
                ) == Err::<(ProtoView, nat), LuaError>(e) && old(self).pos <= final(self).pos,
            },
        decreases depth, 0nat,
    {
        proof {
            reveal(crate::wire::parse_proto_close);
            reveal(crate::wire::parse_proto_list);
            reveal(crate::wire::parse_counted_upvals);
        }
        let upvals = if self.header.version == Version::Lua53 {
            let nu = self.read_count(data)?;
            self.read_upval_list(data, nu)?
        } else {
            Vec::new()
        };
        let nproto = self.read_count(data)?;
        let protos = self.read_proto_list(data, depth - 1, nproto)?;
        let debug = self.read_lua_debug(data)?;
        let p = Prototype { upvalues: upvals, protos, debug, ..head };
        proof {
            crate::types::lemma_proto_view_protos(p);
        }
        Ok(p)
    }

    /// Reads `n` prototypes, each within `depth` nesting levels.
    #[verifier::loop_isolation(false)]
    #[verifier::rlimit(60)]
    #[verifier::spinoff_prover]
    fn read_proto_list(&mut self, data: &Vec<u8>, depth: u64, n: usize) -> (r: Result<
        Vec<Prototype>,
        LuaError,
    >)
        requires
            old(self).pos <= data@.len(),
        ensures
            final(self).header == old(self).header,
            old(self).pos <= final(self).pos <= data@.len(),
            match r {
                Ok(v) => parse_proto_list(
                    data@.skip(old(self).pos as int),
                    final(self).header,
                    depth as nat,
                    n as nat,
                ) == Ok::<(Seq<ProtoView>, nat), LuaError>((
                    protos_view(v),
                    (final(self).pos - old(self).pos) as nat,
                )),
                Err(e) => parse_proto_list(
                    data@.skip(old(self).pos as int),
                    final(self).header,
                    depth as nat,
                    n as nat,
                ) == Err::<(Seq<ProtoView>, nat), LuaError>(e) && old(self).pos <= final(self).pos,
            },
        decreases depth, 3nat,
    {
        let ghost p0 = self.pos as int;
        let ghost s0 = data@.skip(p0);
        let ghost h = self.header;
        let mut out: Vec<Prototype> = Vec::new();
        let mut i: usize = 0;
        while i < n
            invariant
                self.header == h,
                0 <= p0 <= self.pos <= data@.len(),
                i <= n,
                out@.len() == i,
                match parse_proto_list(data@.skip(self.pos as int), h, depth as nat, (n
                - i) as nat) {
                    Ok(pr) => parse_proto_list(s0, h, depth as nat, n as nat) == Ok::<
                        (Seq<ProtoView>, nat),
                        LuaError,
                    >((protos_view(out) + pr.0, (self.pos - p0 + pr.1) as nat)),
                    Err(e) => parse_proto_list(s0, h, depth as nat, n as nat) == Err::<
                        (Seq<ProtoView>, nat),
                        LuaError,
                    >(e),
                },
            decreases n - i,
        {
            let ghost pos_i = self.pos as int;
            let v = match self.read_proto_at(data, depth) {
                Ok(v) => v,
                Err(e) => {
                    proof {
                        crate::wire::lemma_proto_list_step_err(
                            data@.skip(pos_i),
                            h,
                            depth as nat,
                            (n - i) as nat,
                            e,
                        );
                    }
                    return Err(e);
                },
            };
            let ghost out0 = out;
            let ghost itemview = proto_view(v);
            out.push(v);
            i = i + 1;
            proof {
                let k = self.pos - pos_i;
                assert(data@.skip(pos_i).skip(k as int) == data@.skip(self.pos as int));
                assert(protos_view(out) =~= protos_view(out0).push(itemview));
                crate::wire::lemma_proto_list_step_ok(
                    data@.skip(pos_i),
                    h,
                    depth as nat,
                    (n - (i - 1)) as nat,
                    itemview,
                    k as nat,
                );
                match parse_proto_list(data@.skip(self.pos as int), h, depth as nat, (n
                - i) as nat) {
                    Ok(pr) => {
                        assert(protos_view(out) + pr.0 =~= protos_view(out0) + (seq![itemview]
                            + pr.0));
                    },
                    Err(e) => {},
                }
            }
        }
        proof {
            crate::wire::lemma_proto_list_zero(data@.skip(self.pos as int), h, depth as nat);
            assert(protos_view(out) + Seq::<ProtoView>::empty() =~= protos_view(out));
        }
        Ok(out)
    }

    /// Reads the top-level prototype of the configured chunk.
    pub fn read_prototype(&mut self, data: &Vec<u8>) -> (r: Result<Prototype, LuaError>)
        requires
            old(self).pos <= data@.len(),
        ensures
            final(self).header == old(self).header,
            old(self).pos <= final(self).pos <= data@.len(),
            match r {
                Ok(v) => parse_proto(
                    data@.skip(old(self).pos as int),
                    final(self).header,
                    MAX_PROTO_DEPTH as nat,
                ) == Ok::<(ProtoView, nat), LuaError>((
                    proto_view(v),
                    (final(self).pos - old(self).pos) as nat,
                )),
                Err(e) => parse_proto(
                    data@.skip(old(self).pos as int),
                    final(self).header,
                    MAX_PROTO_DEPTH as nat,
                ) == Err::<(ProtoView, nat), LuaError>(e) && old(self).pos <= final(self).pos,
            },
    {
        self.read_proto_at(data, MAX_PROTO_DEPTH)
    }
}

/// A width descriptor byte mapped back to a width.
fn width_of(b: u8) -> (r: Option<ValueSize>)
    ensures
        r == width_of_byte(b),
{
    if b == 4 {
        Some(ValueSize::Four)
    } else if b == 8 {
        Some(ValueSize::Eight)
    } else {
        None
    }
}

/// Reads and validates a chunk header from the start of `data`.
#[verifier::rlimit(80)]
#[verifier::spinoff_prover]
pub fn read_header(data: &Vec<u8>) -> (r: Result<ChunkHeader, LuaError>)
    ensures
        match r {
            Ok(h) => parse_header(data@) == Ok::<(ChunkHeader, nat), LuaError>((
                h,
                header_parsed_len(h),
            )) && header_parsed_len(h) <= data@.len(),
            Err(e) => parse_header(data@) == Err::<(ChunkHeader, nat), LuaError>(e),
        },
{
    proof {
        reveal(crate::wire::parse_header);
        reveal(crate::wire::parse_header_a);
        reveal(crate::wire::parse_header_b);
    }
    let len = data.len();
    if len < 3 {
        return Err(LuaError::UnexpectedEndOfInput);
    }
    if data[0] == 0x01 && data[1] == 0x4C && data[2] == 0x4A {
        return Err(LuaError::UnsupportedFormat);
    }
    if len < 4 {
        return Err(LuaError::UnexpectedEndOfInput);
    }
    if !(data[0] == 0x1B && data[1] == 0x4C && data[2] == 0x75 && data[3] == 0x61) {
        return Err(LuaError::BadSignature);
    }
    if len < 5 {
        return Err(LuaError::UnexpectedEndOfInput);
    }
    let vb = data[4];
    if vb != 0x51 && vb != 0x53 {
        return Err(LuaError::UnsupportedVersion(vb));
    }
    if len < 6 {
        return Err(LuaError::UnexpectedEndOfInput);
    }
    if data[5] != 0 {
        return Err(LuaError::UnsupportedFormat);
    }
    if vb == 0x51 {
        if len < 7 {
            return Err(LuaError::UnexpectedEndOfInput);
        }
        let eb = data[6];
        if eb != 0 && eb != 1 {
            return Err(LuaError::UnsupportedEndianness(eb));
        }
        if len < 8 {
            return Err(LuaError::UnexpectedEndOfInput);
        }
        let iw = match width_of(data[7]) {
            Some(w) => w,
            None => {
                return Err(LuaError::UnsupportedWidth(data[7]));
            },
        };
        if len < 9 {
            return Err(LuaError::UnexpectedEndOfInput);
        }
        let sw = match width_of(data[8]) {
            Some(w) => w,
            None => {
                return Err(LuaError::UnsupportedWidth(data[8]));
            },
        };
        if len < 10 {
            return Err(LuaError::UnexpectedEndOfInput);
        }
        let tw = match width_of(data[9]) {
            Some(w) => w,
            None => {
                return Err(LuaError::UnsupportedWidth(data[9]));
            },
        };
        if len < 11 {
            return Err(LuaError::UnexpectedEndOfInput);
        }
        let nw = match width_of(data[10]) {
            Some(w) => w,
            None => {
                return Err(LuaError::UnsupportedWidth(data[10]));
            },
        };
        if len < 12 {
            return Err(LuaError::UnexpectedEndOfInput);
        }
        Ok(
            ChunkHeader {
                version: Version::Lua51,
                endian: if eb == 1 {
                    LuaEndianness::Little
                } else {
                    LuaEndianness::Big
                },
                int_bytes: iw,
                size_bytes: sw,
                inst_bytes: tw,
                lua_integer_bytes: ValueSize::Eight,
                lua_number_bytes: nw,
                integral_flag: data[11] == 1,
            },
        )
    } else {
        if len < 12 {
            return Err(LuaError::UnexpectedEndOfInput);
        }
        if !(data[6] == 0x19 && data[7] == 0x93 && data[8] == 0x0D && data[9] == 0x0A && data[10]
            == 0x1A && data[11] == 0x0A) {
            return Err(LuaError::BadSentinelData);
        }
        if len < 13 {
            return Err(LuaError::UnexpectedEndOfInput);
        }
        let iw = match width_of(data[12]) {
            Some(w) => w,
            None => {
                return Err(LuaError::UnsupportedWidth(data[12]));
            },
        };
        if len < 14 {
            return Err(LuaError::UnexpectedEndOfInput);
        }
        let sw = match width_of(data[13]) {
            Some(w) => w,
            None => {
                return Err(LuaError::UnsupportedWidth(data[13]));
            },
        };
        if len < 15 {
            return Err(LuaError::UnexpectedEndOfInput);
        }
        let tw = match width_of(data[14]) {
            Some(w) => w,
            None => {
                return Err(LuaError::UnsupportedWidth(data[14]));
            },
        };
        if len < 16 {
            return Err(LuaError::UnexpectedEndOfInput);
        }
        let intw = match width_of(data[15]) {
            Some(w) => w,
            None => {
                return Err(LuaError::UnsupportedWidth(data[15]));
            },
        };
        if len < 17 {
            return Err(LuaError::UnexpectedEndOfInput);
        }
        let numw = match width_of(data[16]) {
            Some(w) => w,
            None => {
                return Err(LuaError::UnsupportedWidth(data[16]));
            },
        };
        let iww = intw.width();
        let nww = numw.width();
        if len < 17 + iww {
            return Err(LuaError::UnexpectedEndOfInput);
        }
        if len < 17 + iww + nww {
            return Err(LuaError::UnexpectedEndOfInput);
        }
        let vbe = word_val_at(data, 17, intw, LuaEndianness::Big);
        let vle = word_val_at(data, 17, intw, LuaEndianness::Little);
        let endian = if vbe == TEST_INT {
            LuaEndianness::Big
        } else if vle == TEST_INT {
            LuaEndianness::Little
        } else {
            return Err(LuaError::BadEndiannessSentinel);
        };
        let nword = word_val_at(data, 17 + iww, numw, endian);
        let bits = match numw {
            ValueSize::Four => widen32(nword as u32),
            ValueSize::Eight => nword,
        };
        if !(NUM_LO <= bits && bits <= NUM_HI) {
            return Err(LuaError::BadNumberSentinel);
        }
        Ok(
            ChunkHeader {
                version: Version::Lua53,
                endian,
                int_bytes: iw,
                size_bytes: sw,
                inst_bytes: tw,
                lua_integer_bytes: intw,
                lua_number_bytes: numw,
                integral_flag: false,
            },
        )
    }
}

/// Decodes a complete chunk from the start of `data`. Trailing bytes
/// after the chunk are ignored.
#[verifier::rlimit(100)]
#[verifier::spinoff_prover]
pub fn read_chunk(data: &Vec<u8>) -> (r: Result<Chunk, LuaError>)
    ensures
        match r {
            Ok(c) => parse_chunk(data@) matches Ok(p) && p.0 == c@,
            Err(e) => parse_chunk(data@) == Err::<(ChunkView, nat), LuaError>(e),
        },
{
    proof {
        reveal(crate::wire::parse_chunk);
    }
    let h = read_header(data)?;
    let pos = match h.version {
        Version::Lua51 => 12,
        Version::Lua53 => 17 + h.lua_integer_bytes.width() + h.lua_number_bytes.width(),
    };
    let mut rd = LuaReader::new(h, pos);
    let p = rd.read_prototype(data)?;
    Ok(Chunk { header: h, proto: p })
}

} // verus!
