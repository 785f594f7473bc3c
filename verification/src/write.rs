//! Executable encoding of binary chunks, proved equal to the byte
//! functions of the wire model: each writer appends to its sink
//! exactly `wire::*_bytes` of its value, and succeeds exactly on the
//! well-formed values. On failure the sink keeps what was already
//! written, plus possibly a partial field.

use vstd::prelude::*;
use crate::types::{
    Chunk, ChunkHeader, Constant, LuaDebug, LuaDebugLocalVar, LuaEndianness, LuaError, Prototype,
    Upvalue, ValueSize, Version,
};
use crate::types::{
    consts_view, locvars_view, names_view, opt_bytes_view, proto_view, protos_view,
};
use crate::types::{ConstantView, LocalVarView, ProtoView};
use crate::wire::{
    chunk_bytes, chunk_wf, code_list_bytes, const_bytes, const_list_bytes, const_wf, count_bytes,
    count_fits, debug_bytes, debug_wf, header_bytes, header_wf, int_bytes_at, int_fits,
    line_list_bytes, localvar_bytes, localvar_wf, locvar_list_bytes, name_list_bytes, name_wf,
    number_bytes, number_fits, proto_bytes, proto_close_bytes, proto_list_bytes, proto_wf,
    source_wf, string_bytes, upval_list_bytes, upvalue_bytes, word_bytes, word_fits,
    MAX_PROTO_DEPTH, NUM_SENTINEL, NUM_SENTINEL_32, TEST_INT,
};
use crate::numbits::{narrow32, widen32};

verus! {

/// Appends the `w` bytes of `v` under byte order `e`.
fn write_word(out: &mut Vec<u8>, v: u64, w: ValueSize, e: LuaEndianness)
    ensures
        final(out)@ == old(out)@ + word_bytes(v, w, e),
{
    proof {
        reveal(crate::wire::word_bytes);
    }
    let ghost o0 = out@;
    match (w, e) {
        (ValueSize::Four, LuaEndianness::Little) => {
            out.push((v % 0x100) as u8);
            out.push(((v / 0x100) % 0x100) as u8);
            out.push(((v / 0x1_0000) % 0x100) as u8);
            out.push(((v / 0x100_0000) % 0x100) as u8);
        },
        (ValueSize::Four, LuaEndianness::Big) => {
            out.push(((v / 0x100_0000) % 0x100) as u8);
            out.push(((v / 0x1_0000) % 0x100) as u8);
            out.push(((v / 0x100) % 0x100) as u8);
            out.push((v % 0x100) as u8);
        },
        (ValueSize::Eight, LuaEndianness::Little) => {
            out.push((v % 0x100) as u8);
            out.push(((v / 0x100) % 0x100) as u8);
            out.push(((v / 0x1_0000) % 0x100) as u8);
            out.push(((v / 0x100_0000) % 0x100) as u8);
            out.push(((v / 0x1_0000_0000) % 0x100) as u8);
            out.push(((v / 0x100_0000_0000) % 0x100) as u8);
            out.push(((v / 0x1_0000_0000_0000) % 0x100) as u8);
            out.push(((v / 0x100_0000_0000_0000) % 0x100) as u8);
        },
        (ValueSize::Eight, LuaEndianness::Big) => {
            out.push(((v / 0x100_0000_0000_0000) % 0x100) as u8);
            out.push(((v / 0x1_0000_0000_0000) % 0x100) as u8);
            out.push(((v / 0x100_0000_0000) % 0x100) as u8);
            out.push(((v / 0x1_0000_0000) % 0x100) as u8);
            out.push(((v / 0x100_0000) % 0x100) as u8);
            out.push(((v / 0x1_0000) % 0x100) as u8);
            out.push(((v / 0x100) % 0x100) as u8);
            out.push((v % 0x100) as u8);
        },
    }
    proof {
        assert(out@ =~= o0 + word_bytes(v, w, e));
    }
}

/// Appends the raw bytes of `b`.
fn write_bytes(out: &mut Vec<u8>, b: &Vec<u8>)
    ensures
        final(out)@ == old(out)@ + b@,
{
    let mut i: usize = 0;
    let ghost o0 = out@;
    while i < b.len()
        invariant
            i <= b@.len(),
            out@ =~= o0 + b@.take(i as int),
        decreases b@.len() - i,
    {
        out.push(b[i]);
        i = i + 1;
        proof {
            assert(out@ =~= o0 + b@.take(i as int));
        }
    }
    proof {
        assert(out@ =~= o0 + b@);
    }
}

/// Appends a signed value at width `w`; fails when it does not fit.
fn write_int(out: &mut Vec<u8>, v: i64, w: ValueSize, e: LuaEndianness) -> (r: Result<
    (),
    LuaError,
>)
    ensures
        match r {
            Ok(()) => int_fits(v, w) && final(out)@ == old(out)@ + int_bytes_at(v, w, e),
            Err(er) => er == LuaError::NotEncodable && !int_fits(v, w) && final(out)@ == old(out)@,
        },
{
    let n: u64 = match w {
        ValueSize::Four => {
            if !(-0x8000_0000 <= v && v < 0x8000_0000) {
                return Err(LuaError::NotEncodable);
            }
            if v >= 0 {
                v as u64
            } else {
                (v + 0x1_0000_0000) as u64
            }
        },
        ValueSize::Eight => {
            if v >= 0 {
                v as u64
            } else {
                ((v + 1 + 0x7FFF_FFFF_FFFF_FFFF) as u64) + 0x8000_0000_0000_0000
            }
        },
    };
    write_word(out, n, w, e);
    Ok(())
}

/// Appends a sequence count; fails when the count does not fit the
/// declared width.
fn write_count(out: &mut Vec<u8>, n: usize, w: ValueSize, e: LuaEndianness) -> (r: Result<
    (),
    LuaError,
>)
    ensures
        match r {
            Ok(()) => count_fits(n as nat, w) && final(out)@ == old(out)@ + count_bytes(n as nat, w, e),
            Err(er) => er == LuaError::NotEncodable && !count_fits(n as nat, w) && final(out)@ == old(
                out,
            )@,
        },
{
    match w {
        ValueSize::Four => {
            if n as u64 >= 0x8000_0000 {
                return Err(LuaError::NotEncodable);
            }
        },
        ValueSize::Eight => {
            if n as u64 >= 0x8000_0000_0000_0000 {
                return Err(LuaError::NotEncodable);
            }
        },
    }
    write_int(out, n as i64, w, e)
}

/// Appends a present string: its size, then its bytes.
#[verifier::rlimit(100)]
#[verifier::spinoff_prover]
fn write_name(out: &mut Vec<u8>, b: &Vec<u8>, h: &ChunkHeader) -> (r: Result<(), LuaError>)
    ensures
        match r {
            Ok(()) => name_wf(b@, *h) && final(out)@ == old(out)@ + string_bytes(
                Option::Some(b@),
                *h,
            ),
            Err(er) => er == LuaError::NotEncodable && !name_wf(b@, *h) && final(out)@ == old(out)@,
        },
{
    proof {
        reveal(crate::wire::string_bytes);
    }
    let len = b.len();
    match h.version {
        Version::Lua51 => {
            match h.size_bytes {
                ValueSize::Four => {
                    if len as u64 >= 0x1_0000_0000 {
                        return Err(LuaError::NotEncodable);
                    }
                },
                ValueSize::Eight => {},
            }
            write_word(out, len as u64, h.size_bytes, h.endian);
            write_bytes(out, b);
            Ok(())
        },
        Version::Lua53 => {
            if len as u64 >= 0xFFFF_FFFF_FFFF_FFFF {
                return Err(LuaError::NotEncodable);
            }
            match h.size_bytes {
                ValueSize::Four => {
                    if len as u64 + 1 >= 0x1_0000_0000 {
                        return Err(LuaError::NotEncodable);
                    }
                },
                ValueSize::Eight => {},
            }
            if (len as u64) + 1 < 0xFF {
                out.push(((len as u64) + 1) as u8);
                write_bytes(out, b);
                proof {
                    assert(out@ =~= old(out)@ + (seq![(b@.len() + 1) as u8] + b@));
                }
            } else {
                out.push(0xFF);
                write_word(out, len as u64 + 1, h.size_bytes, h.endian);
                write_bytes(out, b);
                proof {
                    assert(out@ =~= old(out)@ + (seq![0xFFu8] + word_bytes(
                        (b@.len() + 1) as u64,
                        h.size_bytes,
                        h.endian,
                    ) + b@));
                }
            }
            Ok(())
        },
    }
}

/// Appends an optional string where absence is meaningful.
#[verifier::rlimit(100)]
#[verifier::spinoff_prover]
fn write_source(out: &mut Vec<u8>, o: &Option<Vec<u8>>, h: &ChunkHeader) -> (r: Result<
    (),
    LuaError,
>)
    ensures
        match r {
            Ok(()) => source_wf(opt_bytes_view(*o), *h) && final(out)@ == old(out)@ + string_bytes(
                opt_bytes_view(*o),
                *h,
            ),
            Err(er) => er == LuaError::NotEncodable && !source_wf(opt_bytes_view(*o), *h) && final(out)@
                == old(out)@,
        },
{
    proof {
        reveal(crate::wire::string_bytes);
    }
    match o {
        None => {
            match h.version {
                Version::Lua51 => write_word(out, 0, h.size_bytes, h.endian),
                Version::Lua53 => {
                    out.push(0);
                    proof {
                        assert(out@ =~= old(out)@ + seq![0u8]);
                    }
                },
            }
            Ok(())
        },
        Some(b) => {
            if h.version == Version::Lua51 && b.len() == 0 {
                return Err(LuaError::NotEncodable);
            }
            write_name(out, b, h)
        },
    }
}

/// Appends a number pattern at width `w`; fails when the pattern is
/// not representable at that width.
fn write_number(out: &mut Vec<u8>, bits: u64, w: ValueSize, e: LuaEndianness) -> (r: Result<
    (),
    LuaError,
>)
    ensures
        match r {
            Ok(()) => number_fits(bits, w) && final(out)@ == old(out)@ + number_bytes(bits, w, e),
            Err(er) => er == LuaError::NotEncodable && !number_fits(bits, w) && final(out)@ == old(
                out,
            )@,
        },
{
    match w {
        ValueSize::Eight => {
            write_word(out, bits, ValueSize::Eight, e);
            Ok(())
        },
        ValueSize::Four => {
            match narrow32(bits) {
                Some(c) => {
                    if widen32(c) == bits {
                        write_word(out, c as u64, ValueSize::Four, e);
                        Ok(())
                    } else {
                        Err(LuaError::NotEncodable)
                    }
                },
                None => Err(LuaError::NotEncodable),
            }
        },
    }
}

/// Appends one constant: its tag byte, then its payload.
#[verifier::rlimit(100)]
#[verifier::spinoff_prover]
fn write_constant(out: &mut Vec<u8>, c: &Constant, h: &ChunkHeader) -> (r: Result<(), LuaError>)
    ensures
        match r {
            Ok(()) => const_wf(c@, *h) && final(out)@ == old(out)@ + const_bytes(c@, *h),
            Err(er) => er == LuaError::NotEncodable && !const_wf(c@, *h) && old(
                out,
            )@.is_prefix_of(final(out)@),
        },
{
    proof {
        reveal(crate::wire::const_bytes);
    }
    match c {
        Constant::Nil => {
            out.push(0x00);
            proof {
                assert(out@ =~= old(out)@ + seq![0u8]);
            }
            Ok(())
        },
        Constant::Boolean(b) => {
            out.push(0x01);
            out.push(if *b {
                1
            } else {
                0
            });
            proof {
                assert(out@ =~= old(out)@ + seq![1u8, if *b { 1u8 } else { 0u8 }]);
            }
            Ok(())
        },
        Constant::Number(bits) => {
            out.push(0x03);
            let r = write_number(out, *bits, h.lua_number_bytes, h.endian);
            match r {
                Ok(()) => {
                    proof {
                        assert(out@ =~= old(out)@ + (seq![3u8] + number_bytes(
                            *bits,
                            h.lua_number_bytes,
                            h.endian,
                        )));
                    }
                    Ok(())
                },
                Err(er) => Err(er),
            }
        },
        Constant::Integer(v) => {
            if h.version != Version::Lua53 {
                return Err(LuaError::NotEncodable);
            }
            out.push(0x13);
            let r = write_int(out, *v, h.lua_integer_bytes, h.endian);
            match r {
                Ok(()) => {
                    proof {
                        assert(out@ =~= old(out)@ + (seq![0x13u8] + int_bytes_at(
                            *v,
                            h.lua_integer_bytes,
                            h.endian,
                        )));
                    }
                    Ok(())
                },
                Err(er) => Err(er),
            }
        },
        Constant::String(b) => {
            if h.version == Version::Lua53 && (b.len() >= 0xFF || b.len() + 1 >= 0xFF) {
                out.push(0x14);
            } else {
                out.push(0x04);
            }
            let r = write_name(out, b, h);
            match r {
                Ok(()) => {
                    proof {
                        let tag = if h.version == Version::Lua53 && b@.len() + 1 >= 0xFF {
                            seq![0x14u8]
                        } else {
                            seq![0x04u8]
                        };
                        assert(out@ =~= old(out)@ + (tag + string_bytes(Option::Some(b@), *h)));
                    }
                    Ok(())
                },
                Err(er) => Err(er),
            }
        },
    }
}

/// Appends one upvalue entry.
fn write_upvalue(out: &mut Vec<u8>, u: &Upvalue)
    ensures
        final(out)@ == old(out)@ + upvalue_bytes(*u),
{
    match u {
        Upvalue::Outer(i) => {
            out.push(0);
            out.push(*i);
            proof {
                assert(out@ =~= old(out)@ + seq![0u8, *i]);
            }
        },
        Upvalue::Stack(i) => {
            out.push(1);
            out.push(*i);
            proof {
                assert(out@ =~= old(out)@ + seq![1u8, *i]);
            }
        },
    }
}

/// Appends one local-variable record.
#[verifier::rlimit(100)]
#[verifier::spinoff_prover]
fn write_localvar(out: &mut Vec<u8>, lv: &LuaDebugLocalVar, h: &ChunkHeader) -> (r: Result<
    (),
    LuaError,
>)
    ensures
        match r {
            Ok(()) => localvar_wf(lv@, *h) && final(out)@ == old(out)@ + localvar_bytes(lv@, *h),
            Err(er) => er == LuaError::NotEncodable && !localvar_wf(lv@, *h) && old(
                out,
            )@.is_prefix_of(final(out)@),
        },
{
    proof {
        reveal(crate::wire::localvar_bytes);
    }
    write_name(out, &lv.name, h)?;
    write_int(out, lv.start_pc, h.int_bytes, h.endian)?;
    write_int(out, lv.end_pc, h.int_bytes, h.endian)?;
    Ok(())
}

/// Whether one instruction fits the declared width; the rest of the
/// header is irrelevant to it.
pub open spec fn code_item_wf(v: u64, h: ChunkHeader) -> bool {
    word_fits(v, h.inst_bytes)
}

/// Whether one line number fits the declared width.
pub open spec fn line_item_wf(v: i64, h: ChunkHeader) -> bool {
    int_fits(v, h.int_bytes)
}

/// Appends one instruction; fails when it does not fit.
fn write_code_item(out: &mut Vec<u8>, v: u64, h: &ChunkHeader) -> (r: Result<(), LuaError>)
    ensures
        match r {
            Ok(()) => code_item_wf(v, *h) && final(out)@ == old(out)@ + word_bytes(
                v,
                h.inst_bytes,
                h.endian,
            ),
            Err(er) => er == LuaError::NotEncodable && !code_item_wf(v, *h) && final(out)@ == old(
                out,
            )@,
        },
{
    match h.inst_bytes {
        ValueSize::Four => {
            if v >= 0x1_0000_0000 {
                return Err(LuaError::NotEncodable);
            }
        },
        ValueSize::Eight => {},
    }
    write_word(out, v, h.inst_bytes, h.endian);
    Ok(())
}

/// Appends the instruction list, each entry checked against the declared widths.
#[verifier::loop_isolation(false)]
#[verifier::rlimit(50)]
#[verifier::spinoff_prover]
fn write_code_list(out: &mut Vec<u8>, items: &Vec<u64>, h: &ChunkHeader) -> (r: Result<(), LuaError>)
    ensures
        match r {
            Ok(()) => (forall|j: int| 0 <= j < items@.len() ==> code_item_wf(#[trigger] items@[j], *h))
                && final(out)@ == old(out)@ + code_list_bytes(items@, *h),
            Err(er) => er == LuaError::NotEncodable && !(forall|j: int|
                0 <= j < items@.len() ==> code_item_wf(#[trigger] items@[j], *h)) && old(out)@.is_prefix_of(
                final(out)@,
            ),
        },
{
    let ghost o0 = out@;
    let ghost vw = items@;
    let ghost mut acc: Seq<u8> = Seq::empty();
    let mut i: usize = 0;
    proof {
        assert(vw.skip(0) =~= vw);
        assert(acc + code_list_bytes(vw.skip(0), *h) =~= code_list_bytes(vw, *h));
    }
    while i < items.len()
        invariant
            i <= items@.len(),
            out@ =~= o0 + acc,
            acc + code_list_bytes(vw.skip(i as int), *h) =~= code_list_bytes(vw, *h),
            forall|j: int| 0 <= j < i ==> code_item_wf(#[trigger] vw[j], *h),
        decreases items@.len() - i,
    {
        match write_code_item(out, items[i], h) {
            Ok(()) => {},
            Err(er) => {
                proof {
                    assert(!code_item_wf(vw[i as int], *h));
                    assert(o0.is_prefix_of(out@)) by {
                        assert(out@.take(o0.len() as int) =~= o0);
                    }
                }
                return Err(LuaError::NotEncodable);
            },
        }
        i = i + 1;
        proof {
            let accp = acc;
            acc = acc + word_bytes(vw[i - 1], h.inst_bytes, h.endian);
            assert(vw.skip(i - 1).subrange(1, vw.skip(i - 1).len() as int) =~= vw.skip(i as int));
            assert(vw.skip(i - 1)[0] == vw[i - 1]);
            assert(out@ =~= o0 + acc);
            assert(accp + (word_bytes(vw[i - 1], h.inst_bytes, h.endian) + code_list_bytes(vw.skip(i as int), *h)) =~= acc + code_list_bytes(
                vw.skip(i as int),
                *h,
            ));
            assert(acc + code_list_bytes(vw.skip(i as int), *h) =~= code_list_bytes(vw, *h));
        }
    }
    proof {
        assert(vw.skip(items@.len() as int) =~= Seq::<u64>::empty());
        assert(code_list_bytes(vw.skip(items@.len() as int), *h) =~= Seq::<u8>::empty());
        assert(out@ =~= o0 + code_list_bytes(vw, *h));
    }
    Ok(())
}

/// Appends the constant pool, each entry checked against the declared widths.
#[verifier::loop_isolation(false)]
#[verifier::rlimit(50)]
#[verifier::spinoff_prover]
fn write_const_list(out: &mut Vec<u8>, items: &Vec<Constant>, h: &ChunkHeader) -> (r: Result<(), LuaError>)
    ensures
        match r {
            Ok(()) => (forall|j: int| 0 <= j < consts_view(*items).len() ==> const_wf(#[trigger] consts_view(*items)[j], *h))
                && final(out)@ == old(out)@ + const_list_bytes(consts_view(*items), *h),
            Err(er) => er == LuaError::NotEncodable && !(forall|j: int|
                0 <= j < consts_view(*items).len() ==> const_wf(#[trigger] consts_view(*items)[j], *h)) && old(out)@.is_prefix_of(
                final(out)@,
            ),
        },
{
    let ghost o0 = out@;
    let ghost vw = consts_view(*items);
    let ghost mut acc: Seq<u8> = Seq::empty();
    let mut i: usize = 0;
    proof {
        assert(vw.skip(0) =~= vw);
        assert(acc + const_list_bytes(vw.skip(0), *h) =~= const_list_bytes(vw, *h));
    }
    while i < items.len()
        invariant
            i <= items@.len(),
            out@ =~= o0 + acc,
            acc + const_list_bytes(vw.skip(i as int), *h) =~= const_list_bytes(vw, *h),
            forall|j: int| 0 <= j < i ==> const_wf(#[trigger] vw[j], *h),
        decreases items@.len() - i,
    {
        match write_constant(out, &items[i], h) {
            Ok(()) => {},
            Err(er) => {
                proof {
                    assert(!const_wf(vw[i as int], *h));
                    assert(o0.is_prefix_of(out@)) by {
                        assert(out@.take(o0.len() as int) =~= o0);
                    }
                }
                return Err(LuaError::NotEncodable);
            },
        }
        i = i + 1;
        proof {
            let accp = acc;
            acc = acc + const_bytes(vw[i - 1], *h);
            assert(vw.skip(i - 1).subrange(1, vw.skip(i - 1).len() as int) =~= vw.skip(i as int));
            assert(vw.skip(i - 1)[0] == vw[i - 1]);
            assert(out@ =~= o0 + acc);
            assert(accp + (const_bytes(vw[i - 1], *h) + const_list_bytes(vw.skip(i as int), *h)) =~= acc + const_list_bytes(
                vw.skip(i as int),
                *h,
            ));
            assert(acc + const_list_bytes(vw.skip(i as int), *h) =~= const_list_bytes(vw, *h));
        }
    }
    proof {
        assert(vw.skip(items@.len() as int) =~= Seq::<ConstantView>::empty());
        assert(const_list_bytes(vw.skip(items@.len() as int), *h) =~= Seq::<u8>::empty());
        assert(out@ =~= o0 + const_list_bytes(vw, *h));
    }
    Ok(())
}

/// Appends the line-number table, each entry checked against the declared widths.
#[verifier::loop_isolation(false)]
#[verifier::rlimit(50)]
#[verifier::spinoff_prover]
fn write_line_list(out: &mut Vec<u8>, items: &Vec<i64>, h: &ChunkHeader) -> (r: Result<(), LuaError>)
    ensures
        match r {
            Ok(()) => (forall|j: int| 0 <= j < items@.len() ==> line_item_wf(#[trigger] items@[j], *h))
                && final(out)@ == old(out)@ + line_list_bytes(items@, *h),
            Err(er) => er == LuaError::NotEncodable && !(forall|j: int|
                0 <= j < items@.len() ==> line_item_wf(#[trigger] items@[j], *h)) && old(out)@.is_prefix_of(
                final(out)@,
            ),
        },
{
    let ghost o0 = out@;
    let ghost vw = items@;
    let ghost mut acc: Seq<u8> = Seq::empty();
    let mut i: usize = 0;
    proof {
        assert(vw.skip(0) =~= vw);
        assert(acc + line_list_bytes(vw.skip(0), *h) =~= line_list_bytes(vw, *h));
    }
    while i < items.len()
        invariant
            i <= items@.len(),
            out@ =~= o0 + acc,
            acc + line_list_bytes(vw.skip(i as int), *h) =~= line_list_bytes(vw, *h),
            forall|j: int| 0 <= j < i ==> line_item_wf(#[trigger] vw[j], *h),
        decreases items@.len() - i,
    {
        match write_int(out, items[i], h.int_bytes, h.endian) {
            Ok(()) => {},
            Err(er) => {
                proof {
                    assert(!line_item_wf(vw[i as int], *h));
                    assert(o0.is_prefix_of(out@)) by {
                        assert(out@.take(o0.len() as int) =~= o0);
                    }
                }
                return Err(LuaError::NotEncodable);
            },
        }
        i = i + 1;
        proof {
            let accp = acc;
            acc = acc + int_bytes_at(vw[i - 1], h.int_bytes, h.endian);
            assert(vw.skip(i - 1).subrange(1, vw.skip(i - 1).len() as int) =~= vw.skip(i as int));
            assert(vw.skip(i - 1)[0] == vw[i - 1]);
            assert(out@ =~= o0 + acc);
            assert(accp + (int_bytes_at(vw[i - 1], h.int_bytes, h.endian) + line_list_bytes(vw.skip(i as int), *h)) =~= acc + line_list_bytes(
                vw.skip(i as int),
                *h,
            ));
            assert(acc + line_list_bytes(vw.skip(i as int), *h) =~= line_list_bytes(vw, *h));
        }
    }
    proof {
        assert(vw.skip(items@.len() as int) =~= Seq::<i64>::empty());
        assert(line_list_bytes(vw.skip(items@.len() as int), *h) =~= Seq::<u8>::empty());
        assert(out@ =~= o0 + line_list_bytes(vw, *h));
    }
    Ok(())
}

/// Appends the local-variable table, each entry checked against the declared widths.
#[verifier::loop_isolation(false)]
#[verifier::rlimit(50)]
#[verifier::spinoff_prover]
fn write_locvar_list(out: &mut Vec<u8>, items: &Vec<LuaDebugLocalVar>, h: &ChunkHeader) -> (r: Result<(), LuaError>)
    ensures
        match r {
            Ok(()) => (forall|j: int| 0 <= j < locvars_view(*items).len() ==> localvar_wf(#[trigger] locvars_view(*items)[j], *h))
                && final(out)@ == old(out)@ + locvar_list_bytes(locvars_view(*items), *h),
            Err(er) => er == LuaError::NotEncodable && !(forall|j: int|
                0 <= j < locvars_view(*items).len() ==> localvar_wf(#[trigger] locvars_view(*items)[j], *h)) && old(out)@.is_prefix_of(
                final(out)@,
            ),
        },
{
    let ghost o0 = out@;
    let ghost vw = locvars_view(*items);
    let ghost mut acc: Seq<u8> = Seq::empty();
    let mut i: usize = 0;
    proof {
        assert(vw.skip(0) =~= vw);
        assert(acc + locvar_list_bytes(vw.skip(0), *h) =~= locvar_list_bytes(vw, *h));
    }
    while i < items.len()
        invariant
            i <= items@.len(),
            out@ =~= o0 + acc,
            acc + locvar_list_bytes(vw.skip(i as int), *h) =~= locvar_list_bytes(vw, *h),
            forall|j: int| 0 <= j < i ==> localvar_wf(#[trigger] vw[j], *h),
        decreases items@.len() - i,
    {
        match write_localvar(out, &items[i], h) {
            Ok(()) => {},
            Err(er) => {
                proof {
                    assert(!localvar_wf(vw[i as int], *h));
                    assert(o0.is_prefix_of(out@)) by {
                        assert(out@.take(o0.len() as int) =~= o0);
                    }
                }
                return Err(LuaError::NotEncodable);
            },
        }
        i = i + 1;
        proof {
            let accp = acc;
            acc = acc + localvar_bytes(vw[i - 1], *h);
            assert(vw.skip(i - 1).subrange(1, vw.skip(i - 1).len() as int) =~= vw.skip(i as int));
            assert(vw.skip(i - 1)[0] == vw[i - 1]);
            assert(out@ =~= o0 + acc);
            assert(accp + (localvar_bytes(vw[i - 1], *h) + locvar_list_bytes(vw.skip(i as int), *h)) =~= acc + locvar_list_bytes(
                vw.skip(i as int),
                *h,
            ));
            assert(acc + locvar_list_bytes(vw.skip(i as int), *h) =~= locvar_list_bytes(vw, *h));
        }
    }
    proof {
        assert(vw.skip(items@.len() as int) =~= Seq::<LocalVarView>::empty());
        assert(locvar_list_bytes(vw.skip(items@.len() as int), *h) =~= Seq::<u8>::empty());
        assert(out@ =~= o0 + locvar_list_bytes(vw, *h));
    }
    Ok(())
}

/// Appends the upvalue-name table, each entry checked against the declared widths.
#[verifier::loop_isolation(false)]
#[verifier::rlimit(50)]
#[verifier::spinoff_prover]
fn write_name_list(out: &mut Vec<u8>, items: &Vec<Vec<u8>>, h: &ChunkHeader) -> (r: Result<(), LuaError>)
    ensures
        match r {
            Ok(()) => (forall|j: int| 0 <= j < names_view(*items).len() ==> name_item_wf(#[trigger] names_view(*items)[j], *h))
                && final(out)@ == old(out)@ + name_list_bytes(names_view(*items), *h),
            Err(er) => er == LuaError::NotEncodable && !(forall|j: int|
                0 <= j < names_view(*items).len() ==> name_item_wf(#[trigger] names_view(*items)[j], *h)) && old(out)@.is_prefix_of(
                final(out)@,
            ),
        },
{
    let ghost o0 = out@;
    let ghost vw = names_view(*items);
    let ghost mut acc: Seq<u8> = Seq::empty();
    let mut i: usize = 0;
    proof {
        assert(vw.skip(0) =~= vw);
        assert(acc + name_list_bytes(vw.skip(0), *h) =~= name_list_bytes(vw, *h));
    }
    while i < items.len()
        invariant
            i <= items@.len(),
            out@ =~= o0 + acc,
            acc + name_list_bytes(vw.skip(i as int), *h) =~= name_list_bytes(vw, *h),
            forall|j: int| 0 <= j < i ==> name_item_wf(#[trigger] vw[j], *h),
        decreases items@.len() - i,
    {
        match write_name(out, &items[i], h) {
            Ok(()) => {},
            Err(er) => {
                proof {
                    assert(!name_item_wf(vw[i as int], *h));
                    assert(o0.is_prefix_of(out@)) by {
                        assert(out@.take(o0.len() as int) =~= o0);
                    }
                }
                return Err(LuaError::NotEncodable);
            },
        }
        i = i + 1;
        proof {
            let accp = acc;
            acc = acc + string_bytes(Option::Some(vw[i - 1]), *h);
            assert(vw.skip(i - 1).subrange(1, vw.skip(i - 1).len() as int) =~= vw.skip(i as int));
            assert(vw.skip(i - 1)[0] == vw[i - 1]);
            assert(out@ =~= o0 + acc);
            assert(accp + (string_bytes(Option::Some(vw[i - 1]), *h) + name_list_bytes(vw.skip(i as int), *h)) =~= acc + name_list_bytes(
                vw.skip(i as int),
                *h,
            ));
            assert(acc + name_list_bytes(vw.skip(i as int), *h) =~= name_list_bytes(vw, *h));
        }
    }
    proof {
        assert(vw.skip(items@.len() as int) =~= Seq::<Seq<u8>>::empty());
        assert(name_list_bytes(vw.skip(items@.len() as int), *h) =~= Seq::<u8>::empty());
        assert(out@ =~= o0 + name_list_bytes(vw, *h));
    }
    Ok(())
}

/// Whether one upvalue name fits the declared width.
pub open spec fn name_item_wf(b: Seq<u8>, h: ChunkHeader) -> bool {
    name_wf(b, h)
}

/// Appends the upvalue list entries; always succeeds.
#[verifier::loop_isolation(false)]
#[verifier::rlimit(100)]
#[verifier::spinoff_prover]
fn write_upval_list(out: &mut Vec<u8>, items: &Vec<Upvalue>)
    ensures
        final(out)@ == old(out)@ + upval_list_bytes(items@),
{
    let ghost o0 = out@;
    let ghost vw = items@;
    let ghost mut acc: Seq<u8> = Seq::empty();
    let mut i: usize = 0;
    proof {
        assert(vw.skip(0) =~= vw);
        assert(acc + upval_list_bytes(vw.skip(0)) =~= upval_list_bytes(vw));
    }
    while i < items.len()
        invariant
            i <= items@.len(),
            out@ =~= o0 + acc,
            acc + upval_list_bytes(vw.skip(i as int)) =~= upval_list_bytes(vw),
        decreases items@.len() - i,
    {
        write_upvalue(out, &items[i]);
        i = i + 1;
        proof {
            let accp = acc;
            acc = acc + upvalue_bytes(vw[i - 1]);
            assert(vw.skip(i - 1).subrange(1, vw.skip(i - 1).len() as int) =~= vw.skip(i as int));
            assert(vw.skip(i - 1)[0] == vw[i - 1]);
            assert(out@ =~= o0 + acc);
            assert(accp + (upvalue_bytes(vw[i - 1]) + upval_list_bytes(vw.skip(i as int))) =~= acc
                + upval_list_bytes(vw.skip(i as int)));
            assert(acc + upval_list_bytes(vw.skip(i as int)) =~= upval_list_bytes(vw));
        }
    }
    proof {
        assert(vw.skip(items@.len() as int) =~= Seq::<Upvalue>::empty());
        assert(upval_list_bytes(vw.skip(items@.len() as int)) =~= Seq::<u8>::empty());
        assert(out@ =~= o0 + upval_list_bytes(vw));
    }
}

/// Appends the three debug tables, each preceded by its count.
#[verifier::rlimit(100)]
#[verifier::spinoff_prover]
fn write_debug(out: &mut Vec<u8>, d: &LuaDebug, h: &ChunkHeader) -> (r: Result<(), LuaError>)
    ensures
        match r {
            Ok(()) => debug_wf(d@, *h) && final(out)@ == old(out)@ + debug_bytes(d@, *h),
            Err(er) => er == LuaError::NotEncodable && !debug_wf(d@, *h) && old(
                out,
            )@.is_prefix_of(final(out)@),
        },
{
    proof {
        reveal(crate::wire::debug_bytes);
    }
    let ghost o0 = out@;
    write_count(out, d.lineinfo.len(), h.int_bytes, h.endian)?;
    write_line_list(out, &d.lineinfo, h)?;
    write_count(out, d.localvars.len(), h.int_bytes, h.endian)?;
    write_locvar_list(out, &d.localvars, h)?;
    write_count(out, d.upvalues.len(), h.int_bytes, h.endian)?;
    write_name_list(out, &d.upvalues, h)?;
    proof {
        assert(out@ =~= o0 + debug_bytes(d@, *h));
    }
    Ok(())
}

/// Appends one prototype; fails when any part of the tree cannot be
/// represented at the declared widths or nests too deeply.
#[verifier::rlimit(100)]
#[verifier::spinoff_prover]
fn write_function_at(out: &mut Vec<u8>, p: &Prototype, h: &ChunkHeader, depth: u64) -> (r: Result<
    (),
    LuaError,
>)
    ensures
        match r {
            Ok(()) => proto_wf(proto_view(*p), *h, depth as nat) && final(out)@ == old(out)@
                + proto_bytes(proto_view(*p), *h),
            Err(er) => er == LuaError::NotEncodable && !proto_wf(proto_view(*p), *h, depth as nat)
                && old(out)@.is_prefix_of(final(out)@),
        },
    decreases depth, 1nat,
{
    proof {
        reveal(crate::wire::proto_bytes);
        reveal(crate::wire::proto_close_bytes);
        reveal(crate::wire::proto_wf);
    }
    let ghost o0 = out@;
    let ghost pv = proto_view(*p);
    if depth == 0 {
        return Err(LuaError::NotEncodable);
    }
    if h.version == Version::Lua51 && p.upvalues.len() != 0 {
        proof {
            assert(!proto_wf(pv, *h, depth as nat));
            assert(o0.is_prefix_of(out@)) by {
                assert(out@.take(o0.len() as int) =~= o0);
            }
        }
        return Err(LuaError::NotEncodable);
    }
    if h.version == Version::Lua53 && p.nups != 0 {
        proof {
            assert(!proto_wf(pv, *h, depth as nat));
            assert(o0.is_prefix_of(out@)) by {
                assert(out@.take(o0.len() as int) =~= o0);
            }
        }
        return Err(LuaError::NotEncodable);
    }
    write_source(out, &p.source, h)?;
    write_int(out, p.line_defined, h.int_bytes, h.endian)?;
    write_int(out, p.last_line_defined, h.int_bytes, h.endian)?;
    if h.version == Version::Lua51 {
        out.push(p.nups);
    }
    out.push(p.num_params);
    out.push(p.is_vararg);
    out.push(p.max_stack_size);
    write_count(out, p.code.len(), h.int_bytes, h.endian)?;
    write_code_list(out, &p.code, h)?;
    write_count(out, p.constants.len(), h.int_bytes, h.endian)?;
    write_const_list(out, &p.constants, h)?;
    write_proto_close(out, p, h, depth)?;
    proof {
        crate::types::lemma_proto_view_protos(*p);
        assert(out@ =~= o0 + proto_bytes(pv, *h));
    }
    Ok(())
}

/// Appends the remainder of a prototype after its constant pool: the
/// upvalue list of revision B, the nested prototypes and the debug
/// tables.
#[verifier::rlimit(100)]
#[verifier::spinoff_prover]
fn write_proto_close(out: &mut Vec<u8>, p: &Prototype, h: &ChunkHeader, depth: u64) -> (r: Result<
    (),
    LuaError,
>)
    requires
        depth >= 1,
    ensures
        match r {
            Ok(()) => final(out)@ == old(out)@ + proto_close_bytes(proto_view(*p), *h)
                && (h.version == Version::Lua53 ==> count_fits(
                proto_view(*p).upvalues.len(),
                h.int_bytes,
            )) && count_fits(proto_view(*p).protos.len(), h.int_bytes) && (forall|j: int|
                0 <= j < proto_view(*p).protos.len() ==> proto_wf(
                    #[trigger] proto_view(*p).protos[j],
                    *h,
                    (depth - 1) as nat,
                )) && debug_wf(proto_view(*p).debug, *h),
            Err(er) => er == LuaError::NotEncodable && !((h.version == Version::Lua53
                ==> count_fits(proto_view(*p).upvalues.len(), h.int_bytes)) && count_fits(
                proto_view(*p).protos.len(),
                h.int_bytes,
            ) && (forall|j: int|
                0 <= j < proto_view(*p).protos.len() ==> proto_wf(
                    #[trigger] proto_view(*p).protos[j],
                    *h,
                    (depth - 1) as nat,
                )) && debug_wf(proto_view(*p).debug, *h)) && old(out)@.is_prefix_of(final(out)@),
        },
    decreases depth, 0nat,
{
    let ghost o0 = out@;
    let ghost pv = proto_view(*p);
    proof {
        reveal(crate::wire::proto_close_bytes);
        reveal(crate::wire::proto_list_bytes);
        crate::types::lemma_proto_view_protos(*p);
    }
    if h.version == Version::Lua53 {
        write_count(out, p.upvalues.len(), h.int_bytes, h.endian)?;
        write_upval_list(out, &p.upvalues);
    }
    write_count(out, p.protos.len(), h.int_bytes, h.endian)?;
    write_proto_list(out, &p.protos, h, depth - 1)?;
    write_debug(out, &p.debug, h)?;
    proof {
        assert(out@ =~= o0 + proto_close_bytes(pv, *h));
    }
    Ok(())
}

/// Appends a list of prototypes.
#[verifier::loop_isolation(false)]
#[verifier::rlimit(60)]
#[verifier::spinoff_prover]
fn write_proto_list(out: &mut Vec<u8>, items: &Vec<Prototype>, h: &ChunkHeader, depth: u64) -> (r:
    Result<(), LuaError>)
    ensures
        match r {
            Ok(()) => (forall|j: int|
                0 <= j < protos_view(*items).len() ==> proto_wf(
                    #[trigger] protos_view(*items)[j],
                    *h,
                    depth as nat,
                )) && final(out)@ == old(out)@ + proto_list_bytes(protos_view(*items), *h),
            Err(er) => er == LuaError::NotEncodable && !(forall|j: int|
                0 <= j < protos_view(*items).len() ==> proto_wf(
                    #[trigger] protos_view(*items)[j],
                    *h,
                    depth as nat,
                )) && old(out)@.is_prefix_of(final(out)@),
        },
    decreases depth, 2nat,
{
    let ghost o0 = out@;
    let ghost vw = protos_view(*items);
    let ghost mut acc: Seq<u8> = Seq::empty();
    let mut i: usize = 0;
    proof {
        assert(vw.skip(0) =~= vw);
        assert(acc + proto_list_bytes(vw.skip(0), *h) =~= proto_list_bytes(vw, *h));
        assert(protos_view(*items).len() == items@.len());
    }
    while i < items.len()
        invariant
            i <= items@.len(),
            out@ =~= o0 + acc,
            acc + proto_list_bytes(vw.skip(i as int), *h) =~= proto_list_bytes(vw, *h),
            forall|j: int| 0 <= j < i ==> proto_wf(#[trigger] vw[j], *h, depth as nat),
        decreases items@.len() - i,
    {
        match write_function_at(out, &items[i], h, depth) {
            Ok(()) => {},
            Err(er) => {
                proof {
                    assert(!proto_wf(vw[i as int], *h, depth as nat));
                    assert(o0.is_prefix_of(out@)) by {
                        assert(out@.take(o0.len() as int) =~= o0);
                    }
                }
                return Err(LuaError::NotEncodable);
            },
        }
        i = i + 1;
        proof {
            let accp = acc;
            acc = acc + proto_bytes(vw[i - 1], *h);
            assert(vw.skip(i - 1).subrange(1, vw.skip(i - 1).len() as int) =~= vw.skip(i as int));
            assert(vw.skip(i - 1)[0] == vw[i - 1]);
            crate::wire::lemma_proto_list_bytes_step(vw.skip(i - 1), *h);
            assert(out@ =~= o0 + acc);
            assert(accp + (proto_bytes(vw[i - 1], *h) + proto_list_bytes(vw.skip(i as int), *h))
                =~= acc + proto_list_bytes(vw.skip(i as int), *h));
            assert(acc + proto_list_bytes(vw.skip(i as int), *h) =~= proto_list_bytes(vw, *h));
        }
    }
    proof {
        assert(vw.skip(items@.len() as int) =~= Seq::<ProtoView>::empty());
        crate::wire::lemma_proto_list_bytes_empty(vw.skip(items@.len() as int), *h);
        assert(out@ =~= o0 + proto_list_bytes(vw, *h));
    }
    Ok(())
}

/// Appends a chunk header; fails when the header holds a value its
/// own revision cannot carry.
#[verifier::rlimit(60)]
#[verifier::spinoff_prover]
fn write_header(out: &mut Vec<u8>, h: &ChunkHeader) -> (r: Result<(), LuaError>)
    ensures
        match r {
            Ok(()) => header_wf(*h) && final(out)@ == old(out)@ + header_bytes(*h),
            Err(er) => er == LuaError::NotEncodable && !header_wf(*h) && final(out)@ == old(out)@,
        },
{
    proof {
        reveal(crate::wire::header_bytes);
    }
    let ghost o0 = out@;
    match h.version {
        Version::Lua51 => {
            if h.lua_integer_bytes != ValueSize::Eight {
                return Err(LuaError::NotEncodable);
            }
            out.push(0x1B);
            out.push(0x4C);
            out.push(0x75);
            out.push(0x61);
            out.push(0x51);
            out.push(0);
            out.push(
                match h.endian {
                    LuaEndianness::Big => 0,
                    LuaEndianness::Little => 1,
                },
            );
            out.push(h.int_bytes.width() as u8);
            out.push(h.size_bytes.width() as u8);
            out.push(h.inst_bytes.width() as u8);
            out.push(h.lua_number_bytes.width() as u8);
            out.push(
                if h.integral_flag {
                    1
                } else {
                    0
                },
            );
            proof {
                assert(out@ =~= o0 + header_bytes(*h));
            }
            Ok(())
        },
        Version::Lua53 => {
            if h.integral_flag {
                return Err(LuaError::NotEncodable);
            }
            out.push(0x1B);
            out.push(0x4C);
            out.push(0x75);
            out.push(0x61);
            out.push(0x53);
            out.push(0);
            out.push(0x19);
            out.push(0x93);
            out.push(0x0D);
            out.push(0x0A);
            out.push(0x1A);
            out.push(0x0A);
            out.push(h.int_bytes.width() as u8);
            out.push(h.size_bytes.width() as u8);
            out.push(h.inst_bytes.width() as u8);
            out.push(h.lua_integer_bytes.width() as u8);
            out.push(h.lua_number_bytes.width() as u8);
            write_word(out, TEST_INT, h.lua_integer_bytes, h.endian);
            match h.lua_number_bytes {
                ValueSize::Four => write_word(
                    out,
                    NUM_SENTINEL_32 as u64,
                    ValueSize::Four,
                    h.endian,
                ),
                ValueSize::Eight => write_word(out, NUM_SENTINEL, ValueSize::Eight, h.endian),
            }
            proof {
                assert(out@ =~= o0 + header_bytes(*h));
            }
            Ok(())
        },
    }
}

/// Appends the canonical encoding of a chunk to `out`: the header,
/// then the top-level prototype. Succeeds exactly on well-formed
/// chunks; on failure `out` keeps what was already written.
#[verifier::rlimit(100)]
#[verifier::spinoff_prover]
pub fn write_chunk(out: &mut Vec<u8>, chunk: &Chunk) -> (r: Result<(), LuaError>)
    ensures
        match r {
            Ok(()) => chunk_wf(chunk@) && final(out)@ == old(out)@ + chunk_bytes(chunk@),
            Err(er) => er == LuaError::NotEncodable && !chunk_wf(chunk@) && old(
                out,
            )@.is_prefix_of(final(out)@),
        },
{
    let ghost o0 = out@;
    match write_header(out, &chunk.header) {
        Ok(()) => {},
        Err(er) => {
            proof {
                assert(o0.is_prefix_of(out@)) by {
                    assert(out@.take(o0.len() as int) =~= o0);
                }
            }
            return Err(er);
        },
    }
    write_function_at(out, &chunk.proto, &chunk.header, MAX_PROTO_DEPTH)?;
    proof {
        assert(out@ =~= o0 + chunk_bytes(chunk@));
    }
    Ok(())
}

/// The canonical encoding of a chunk as a fresh byte vector.
pub fn write_file(chunk: &Chunk) -> (r: Result<Vec<u8>, LuaError>)
    ensures
        match r {
            Ok(v) => chunk_wf(chunk@) && v@ == chunk_bytes(chunk@),
            Err(er) => er == LuaError::NotEncodable && !chunk_wf(chunk@),
        },
{
    let mut out: Vec<u8> = Vec::new();
    write_chunk(&mut out, chunk)?;
    proof {
        assert(out@ =~= chunk_bytes(chunk@));
    }
    Ok(out)
}

} // verus!
