//! The guarantees that relate encoding and decoding: parsing the
//! canonical encoding of any well-formed value, with anything after
//! it, yields exactly that value and consumes exactly its encoding.
//! Together with the contracts of `read` and `write`, this gives the
//! round trip: decoding an encoded chunk returns the chunk.

use vstd::prelude::*;
use crate::types::{ChunkHeader, ChunkView, ConstantView, DebugView, LocalVarView, LuaEndianness,
    LuaError, ProtoView, Upvalue, ValueSize, Version};
use crate::numbits::num32_of;
use crate::wire::{
    chunk_bytes, chunk_wf, code_list_bytes, const_bytes, const_list_bytes, const_wf, count_bytes,
    count_fits, debug_bytes, debug_wf, header_bytes, header_parsed_len, header_wf, int_bytes_at,
    int_fits, int_to_wire, line_list_bytes, localvar_bytes, localvar_wf,
    locvar_list_bytes, name_list_bytes, name_wf, num_sentinel_ok, number_bytes, number_fits,
    parse_chunk, parse_code_list, parse_const_list, parse_constant, parse_count,
    parse_counted_upvals, parse_debug, parse_header, parse_header_a, parse_header_b, parse_int,
    parse_line_list, parse_localvar, parse_locvar_list, parse_name_list, parse_number,
    parse_proto, parse_proto_close, parse_proto_list, parse_proto_tail, parse_string,
    parse_upval_list, parse_upvalue, parse_word, proto_bytes, proto_close_bytes, proto_list_bytes,
    proto_wf, sentinel_num_bytes, source_wf, str_collapse, string_bytes, upval_list_bytes,
    upvalue_bytes, width_byte, width_of_byte, word_bytes, word_fits, word_val,
    MAX_PROTO_DEPTH, NUM_SENTINEL, NUM_SENTINEL_32, TEST_INT,
};

verus! {

broadcast use vstd::seq_lib::lemma_seq_skip_of_skip, crate::wire::lemma_word_bytes_len;

/// Reading a word from its own encoding, under the same width and
/// byte order, gives the value back.
#[verifier::rlimit(100)]
#[verifier::spinoff_prover]
pub proof fn lemma_word_val_of_bytes(v: u64, w: ValueSize, e: LuaEndianness, s: Seq<u8>)
    requires
        word_fits(v, w),
        word_bytes(v, w, e).is_prefix_of(s),
    ensures
        word_val(s, w, e) == v,
{
    reveal(crate::wire::word_bytes);
    reveal(crate::wire::word_val);
    let b = word_bytes(v, w, e);
    assert(forall|i: int| 0 <= i < b.len() ==> s[i] == b[i]) by {
        assert(s.take(b.len() as int) =~= b);
    }
    match w {
        ValueSize::Four => {
            assert((v % 0x100) + ((v / 0x100) % 0x100) * 0x100 + ((v / 0x1_0000) % 0x100)
                * 0x1_0000 + ((v / 0x100_0000) % 0x100) * 0x100_0000 == v) by (bit_vector)
                requires
                    v < 0x1_0000_0000,
            ;
        },
        ValueSize::Eight => {
            assert((v % 0x100) + ((v / 0x100) % 0x100) * 0x100 + ((v / 0x1_0000) % 0x100)
                * 0x1_0000 + ((v / 0x100_0000) % 0x100) * 0x100_0000 + ((v / 0x1_0000_0000)
                % 0x100) * 0x1_0000_0000 + ((v / 0x100_0000_0000) % 0x100) * 0x100_0000_0000 + ((v
                / 0x1_0000_0000_0000) % 0x100) * 0x1_0000_0000_0000 + ((v / 0x100_0000_0000_0000)
                % 0x100) * 0x100_0000_0000_0000 == v) by (bit_vector);
        },
    }
}

/// Parsing a word from its own encoding followed by anything.
pub proof fn lemma_word_rt(v: u64, w: ValueSize, e: LuaEndianness, rest: Seq<u8>)
    requires
        word_fits(v, w),
    ensures
        parse_word(word_bytes(v, w, e) + rest, w, e) == Ok::<(u64, nat), LuaError>((
            v,
            w.spec_width(),
        )),
{
    lemma_word_val_of_bytes(v, w, e, word_bytes(v, w, e) + rest);
}

/// Parsing a signed word from its own encoding followed by anything.
pub proof fn lemma_int_rt(v: i64, w: ValueSize, e: LuaEndianness, rest: Seq<u8>)
    requires
        int_fits(v, w),
    ensures
        parse_int(int_bytes_at(v, w, e) + rest, w, e) == Ok::<(i64, nat), LuaError>((
            v,
            w.spec_width(),
        )),
{
    lemma_word_rt(int_to_wire(v, w), w, e, rest);
}

/// Parsing a sequence count from its own encoding.
pub proof fn lemma_count_rt(n: nat, w: ValueSize, e: LuaEndianness, rest: Seq<u8>)
    requires
        count_fits(n, w),
    ensures
        parse_count(count_bytes(n, w, e) + rest, w, e) == Ok::<(nat, nat), LuaError>((
            n,
            w.spec_width(),
        )),
{
    reveal(crate::wire::parse_count);
    lemma_int_rt(n as i64, w, e, rest);
}

/// Parsing a number pattern from its own encoding.
pub proof fn lemma_number_rt(bits: u64, w: ValueSize, e: LuaEndianness, rest: Seq<u8>)
    requires
        number_fits(bits, w),
    ensures
        parse_number(number_bytes(bits, w, e) + rest, w, e) == Ok::<(u64, nat), LuaError>((
            bits,
            w.spec_width(),
        )),
{
    match w {
        ValueSize::Four => {
            lemma_word_rt(num32_of(bits) as u64, ValueSize::Four, e, rest);
        },
        ValueSize::Eight => {
            lemma_word_rt(bits, ValueSize::Eight, e, rest);
        },
    }
}

/// Parsing an optional string from its own encoding, where absence
/// is meaningful.
#[verifier::rlimit(100)]
#[verifier::spinoff_prover]
pub proof fn lemma_source_rt(o: Option<Seq<u8>>, h: ChunkHeader, rest: Seq<u8>)
    requires
        source_wf(o, h),
    ensures
        parse_string(string_bytes(o, h) + rest, h) == Ok::<(Option<Seq<u8>>, nat), LuaError>((
            o,
            string_bytes(o, h).len(),
        )),
{
    reveal(crate::wire::parse_string);
    reveal(crate::wire::string_bytes);
    let s = string_bytes(o, h) + rest;
    match h.version {
        Version::Lua51 => {
            match o {
                Option::None => {
                    lemma_word_rt(0, h.size_bytes, h.endian, rest);
                },
                Option::Some(b) => {
                    lemma_word_rt(b.len() as u64, h.size_bytes, h.endian, b + rest);
                    let k = h.size_bytes.spec_width();
                    assert(word_bytes(b.len() as u64, h.size_bytes, h.endian) + b + rest =~= word_bytes(
                        b.len() as u64,
                        h.size_bytes,
                        h.endian,
                    ) + (b + rest));
                    assert(s.subrange(k as int, k + b.len() as int) =~= b);
                },
            }
        },
        Version::Lua53 => {
            match o {
                Option::None => {
                    assert(s[0] == 0);
                },
                Option::Some(b) => {
                    if b.len() + 1 < 0xFF {
                        assert(s[0] == (b.len() + 1) as u8);
                        assert(s[0] != 0 && s[0] < 0xFF);
                        assert(s.subrange(1, 1 + b.len() as int) =~= b);
                    } else {
                        assert(s[0] == 0xFF);
                        let wb = word_bytes((b.len() + 1) as u64, h.size_bytes, h.endian);
                        assert(s.skip(1) =~= wb + (b + rest));
                        lemma_word_rt((b.len() + 1) as u64, h.size_bytes, h.endian, b + rest);
                        let k = h.size_bytes.spec_width();
                        assert(s.subrange(1 + k as int, 1 + k as int + b.len() as int) =~= b);
                    }
                },
            }
        },
    }
}

/// Parsing a present string from its own encoding: the collapsed
/// result is the string. In revision A an empty present string parses
/// back as absent, which collapses to the same empty sequence.
#[verifier::rlimit(100)]
#[verifier::spinoff_prover]
pub proof fn lemma_name_rt(b: Seq<u8>, h: ChunkHeader, rest: Seq<u8>)
    requires
        name_wf(b, h),
    ensures
        parse_string(string_bytes(Option::Some(b), h) + rest, h) matches Ok(p) && str_collapse(
            p.0,
        ) == b && p.1 == string_bytes(Option::Some(b), h).len(),
{
    if h.version == Version::Lua51 && b.len() == 0 {
        reveal(crate::wire::parse_string);
        reveal(crate::wire::string_bytes);
        lemma_word_rt(0, h.size_bytes, h.endian, rest);
        assert(string_bytes(Option::Some(b), h) =~= word_bytes(0, h.size_bytes, h.endian));
        assert(string_bytes(Option::Some(b), h) + rest =~= word_bytes(0, h.size_bytes, h.endian)
            + rest);
    } else {
        lemma_source_rt(Option::Some(b), h, rest);
    }
}

/// Parsing an upvalue entry from its own encoding.
pub proof fn lemma_upvalue_rt(u: Upvalue, rest: Seq<u8>)
    ensures
        parse_upvalue(upvalue_bytes(u) + rest) == Ok::<(Upvalue, nat), LuaError>((u, 2)),
{
}

/// Parsing a constant from its own encoding.
#[verifier::rlimit(100)]
#[verifier::spinoff_prover]
pub proof fn lemma_constant_rt(c: ConstantView, h: ChunkHeader, rest: Seq<u8>)
    requires
        const_wf(c, h),
    ensures
        parse_constant(const_bytes(c, h) + rest, h) == Ok::<(ConstantView, nat), LuaError>((
            c,
            const_bytes(c, h).len(),
        )),
{
    reveal(crate::wire::parse_constant);
    reveal(crate::wire::const_bytes);
    let s = const_bytes(c, h) + rest;
    match c {
        ConstantView::Nil => {
            assert(s[0] == 0);
        },
        ConstantView::Boolean(b) => {
            assert(s[0] == 1);
            assert(s[1] == (if b { 1u8 } else { 0u8 }));
        },
        ConstantView::Number(bits) => {
            let nb = number_bytes(bits, h.lua_number_bytes, h.endian);
            assert(s.skip(1) =~= nb + rest);
            lemma_number_rt(bits, h.lua_number_bytes, h.endian, rest);
        },
        ConstantView::Integer(v) => {
            let ib = int_bytes_at(v, h.lua_integer_bytes, h.endian);
            assert(s.skip(1) =~= ib + rest);
            lemma_int_rt(v, h.lua_integer_bytes, h.endian, rest);
        },
        ConstantView::String(b) => {
            let sb = string_bytes(Option::Some(b), h);
            assert(s.skip(1) =~= sb + rest);
            lemma_name_rt(b, h, rest);
        },
    }
}

/// Parsing a local-variable record from its own encoding.
#[verifier::rlimit(100)]
#[verifier::spinoff_prover]
pub proof fn lemma_localvar_rt(lv: LocalVarView, h: ChunkHeader, rest: Seq<u8>)
    requires
        localvar_wf(lv, h),
    ensures
        parse_localvar(localvar_bytes(lv, h) + rest, h) == Ok::<(LocalVarView, nat), LuaError>((
            lv,
            localvar_bytes(lv, h).len(),
        )),
{
    reveal(crate::wire::parse_localvar);
    reveal(crate::wire::localvar_bytes);
    let nb = string_bytes(Option::Some(lv.name), h);
    let ib1 = int_bytes_at(lv.start_pc, h.int_bytes, h.endian);
    let ib2 = int_bytes_at(lv.end_pc, h.int_bytes, h.endian);
    let s = localvar_bytes(lv, h) + rest;
    assert(s =~= nb + (ib1 + (ib2 + rest)));
    lemma_name_rt(lv.name, h, ib1 + (ib2 + rest));
    assert(s.skip(nb.len() as int) =~= ib1 + (ib2 + rest));
    lemma_int_rt(lv.start_pc, h.int_bytes, h.endian, ib2 + rest);
    assert((ib1 + (ib2 + rest)).skip(ib1.len() as int) =~= ib2 + rest);
    lemma_int_rt(lv.end_pc, h.int_bytes, h.endian, rest);
    assert(s.skip(nb.len() as int + ib1.len() as int) =~= ib2 + rest);
}

/// Parsing instructions from their own encoding.
#[verifier::rlimit(100)]
#[verifier::spinoff_prover]
pub proof fn lemma_code_list_rt(items: Seq<u64>, h: ChunkHeader, rest: Seq<u8>)
    requires
        forall|i: int| 0 <= i < items.len() ==> word_fits(#[trigger] items[i], h.inst_bytes),
    ensures
        parse_code_list(code_list_bytes(items, h) + rest, h, items.len()) == Ok::<(Seq<u64>, nat), LuaError>((
            items,
            code_list_bytes(items, h).len(),
        )),
    decreases items.len(),
{
    if items.len() == 0 {
        assert(items =~= Seq::<u64>::empty());
        assert(code_list_bytes(items, h) + rest =~= rest);
    } else {
        let ib = word_bytes(items[0], h.inst_bytes, h.endian);
        let tl = items.subrange(1, items.len() as int);
        let lb = code_list_bytes(tl, h);
        assert(code_list_bytes(items, h) + rest =~= ib + (lb + rest));
        lemma_word_rt(items[0], h.inst_bytes, h.endian, lb + rest);
        assert((ib + (lb + rest)).skip(ib.len() as int) =~= lb + rest);
        lemma_code_list_rt(tl, h, rest);
        assert(seq![items[0]] + tl =~= items);
    }
}

/// Parsing constants from their own encoding.
#[verifier::rlimit(100)]
#[verifier::spinoff_prover]
pub proof fn lemma_const_list_rt(items: Seq<ConstantView>, h: ChunkHeader, rest: Seq<u8>)
    requires
        forall|i: int| 0 <= i < items.len() ==> const_wf(#[trigger] items[i], h),
    ensures
        parse_const_list(const_list_bytes(items, h) + rest, h, items.len()) == Ok::<(Seq<ConstantView>, nat), LuaError>((
            items,
            const_list_bytes(items, h).len(),
        )),
    decreases items.len(),
{
    if items.len() == 0 {
        assert(items =~= Seq::<ConstantView>::empty());
        assert(const_list_bytes(items, h) + rest =~= rest);
    } else {
        let ib = const_bytes(items[0], h);
        let tl = items.subrange(1, items.len() as int);
        let lb = const_list_bytes(tl, h);
        assert(const_list_bytes(items, h) + rest =~= ib + (lb + rest));
        lemma_constant_rt(items[0], h, lb + rest);
        assert((ib + (lb + rest)).skip(ib.len() as int) =~= lb + rest);
        lemma_const_list_rt(tl, h, rest);
        assert(seq![items[0]] + tl =~= items);
    }
}

/// Parsing line numbers from their own encoding.
#[verifier::rlimit(100)]
#[verifier::spinoff_prover]
pub proof fn lemma_line_list_rt(items: Seq<i64>, h: ChunkHeader, rest: Seq<u8>)
    requires
        forall|i: int| 0 <= i < items.len() ==> int_fits(#[trigger] items[i], h.int_bytes),
    ensures
        parse_line_list(line_list_bytes(items, h) + rest, h, items.len()) == Ok::<(Seq<i64>, nat), LuaError>((
            items,
            line_list_bytes(items, h).len(),
        )),
    decreases items.len(),
{
    if items.len() == 0 {
        assert(items =~= Seq::<i64>::empty());
        assert(line_list_bytes(items, h) + rest =~= rest);
    } else {
        let ib = int_bytes_at(items[0], h.int_bytes, h.endian);
        let tl = items.subrange(1, items.len() as int);
        let lb = line_list_bytes(tl, h);
        assert(line_list_bytes(items, h) + rest =~= ib + (lb + rest));
        lemma_int_rt(items[0], h.int_bytes, h.endian, lb + rest);
        assert((ib + (lb + rest)).skip(ib.len() as int) =~= lb + rest);
        lemma_line_list_rt(tl, h, rest);
        assert(seq![items[0]] + tl =~= items);
    }
}

/// Parsing local-variable records from their own encoding.
#[verifier::rlimit(100)]
#[verifier::spinoff_prover]
pub proof fn lemma_locvar_list_rt(items: Seq<LocalVarView>, h: ChunkHeader, rest: Seq<u8>)
    requires
        forall|i: int| 0 <= i < items.len() ==> localvar_wf(#[trigger] items[i], h),
    ensures
        parse_locvar_list(locvar_list_bytes(items, h) + rest, h, items.len()) == Ok::<(Seq<LocalVarView>, nat), LuaError>((
            items,
            locvar_list_bytes(items, h).len(),
        )),
    decreases items.len(),
{
    if items.len() == 0 {
        assert(items =~= Seq::<LocalVarView>::empty());
        assert(locvar_list_bytes(items, h) + rest =~= rest);
    } else {
        let ib = localvar_bytes(items[0], h);
        let tl = items.subrange(1, items.len() as int);
        let lb = locvar_list_bytes(tl, h);
        assert(locvar_list_bytes(items, h) + rest =~= ib + (lb + rest));
        lemma_localvar_rt(items[0], h, lb + rest);
        assert((ib + (lb + rest)).skip(ib.len() as int) =~= lb + rest);
        lemma_locvar_list_rt(tl, h, rest);
        assert(seq![items[0]] + tl =~= items);
    }
}

/// Parsing upvalue names from their own encoding.
#[verifier::rlimit(100)]
#[verifier::spinoff_prover]
pub proof fn lemma_name_list_rt(items: Seq<Seq<u8>>, h: ChunkHeader, rest: Seq<u8>)
    requires
        forall|i: int| 0 <= i < items.len() ==> name_wf(#[trigger] items[i], h),
    ensures
        parse_name_list(name_list_bytes(items, h) + rest, h, items.len()) == Ok::<(Seq<Seq<u8>>, nat), LuaError>((
            items,
            name_list_bytes(items, h).len(),
        )),
    decreases items.len(),
{
    if items.len() == 0 {
        assert(items =~= Seq::<Seq<u8>>::empty());
        assert(name_list_bytes(items, h) + rest =~= rest);
    } else {
        let ib = string_bytes(Option::Some(items[0]), h);
        let tl = items.subrange(1, items.len() as int);
        let lb = name_list_bytes(tl, h);
        assert(name_list_bytes(items, h) + rest =~= ib + (lb + rest));
        lemma_name_rt(items[0], h, lb + rest);
        assert((ib + (lb + rest)).skip(ib.len() as int) =~= lb + rest);
        lemma_name_list_rt(tl, h, rest);
        assert(seq![items[0]] + tl =~= items);
    }
}

/// Parsing upvalue entries from their own encoding.
#[verifier::rlimit(100)]
#[verifier::spinoff_prover]
pub proof fn lemma_upval_list_rt(items: Seq<Upvalue>, rest: Seq<u8>)
    ensures
        parse_upval_list(upval_list_bytes(items) + rest, items.len()) == Ok::<
            (Seq<Upvalue>, nat),
            LuaError,
        >((items, upval_list_bytes(items).len())),
    decreases items.len(),
{
    if items.len() == 0 {
        assert(items =~= Seq::<Upvalue>::empty());
        assert(upval_list_bytes(items) + rest =~= rest);
    } else {
        let ib = upvalue_bytes(items[0]);
        let tl = items.subrange(1, items.len() as int);
        let lb = upval_list_bytes(tl);
        assert(upval_list_bytes(items) + rest =~= ib + (lb + rest));
        lemma_upvalue_rt(items[0], lb + rest);
        assert((ib + (lb + rest)).skip(ib.len() as int) =~= lb + rest);
        lemma_upval_list_rt(tl, rest);
        assert(seq![items[0]] + tl =~= items);
    }
}

/// Parsing the three debug tables from their own encoding.
#[verifier::rlimit(100)]
#[verifier::spinoff_prover]
pub proof fn lemma_debug_rt(d: DebugView, h: ChunkHeader, rest: Seq<u8>)
    requires
        debug_wf(d, h),
    ensures
        parse_debug(debug_bytes(d, h) + rest, h) == Ok::<(DebugView, nat), LuaError>((
            d,
            debug_bytes(d, h).len(),
        )),
{
    reveal(crate::wire::parse_debug);
    reveal(crate::wire::debug_bytes);
    let c1 = count_bytes(d.lineinfo.len(), h.int_bytes, h.endian);
    let l1 = line_list_bytes(d.lineinfo, h);
    let c2 = count_bytes(d.localvars.len(), h.int_bytes, h.endian);
    let l2 = locvar_list_bytes(d.localvars, h);
    let c3 = count_bytes(d.upvalues.len(), h.int_bytes, h.endian);
    let l3 = name_list_bytes(d.upvalues, h);
    let s = debug_bytes(d, h) + rest;
    assert(s =~= c1 + (l1 + (c2 + (l2 + (c3 + (l3 + rest))))));
    lemma_count_rt(d.lineinfo.len(), h.int_bytes, h.endian, l1 + (c2 + (l2 + (c3 + (l3
        + rest)))));
    assert(s.skip(c1.len() as int) =~= l1 + (c2 + (l2 + (c3 + (l3 + rest)))));
    lemma_line_list_rt(d.lineinfo, h, c2 + (l2 + (c3 + (l3 + rest))));
    assert(s.skip(c1.len() as int + l1.len() as int) =~= c2 + (l2 + (c3 + (l3 + rest))));
    lemma_count_rt(d.localvars.len(), h.int_bytes, h.endian, l2 + (c3 + (l3 + rest)));
    assert(s.skip(c1.len() as int + l1.len() as int + c2.len() as int) =~= l2 + (c3 + (l3
        + rest)));
    lemma_locvar_list_rt(d.localvars, h, c3 + (l3 + rest));
    assert(s.skip(c1.len() as int + l1.len() as int + c2.len() as int + l2.len() as int) =~= c3
        + (l3 + rest));
    lemma_count_rt(d.upvalues.len(), h.int_bytes, h.endian, l3 + rest);
    assert(s.skip(
        c1.len() as int + l1.len() as int + c2.len() as int + l2.len() as int + c3.len() as int,
    ) =~= l3 + rest);
    lemma_name_list_rt(d.upvalues, h, rest);
}

/// Skipping a concatenation's first part leaves its second part.
pub proof fn lemma_skip_concat(a: Seq<u8>, b: Seq<u8>)
    ensures
        (a + b).skip(a.len() as int) == b,
{
    assert((a + b).skip(a.len() as int) =~= b);
}

/// Concatenation of byte sequences is associative.
pub proof fn lemma_assoc(a: Seq<u8>, b: Seq<u8>, c: Seq<u8>)
    ensures
        (a + b) + c == a + (b + c),
{
    assert((a + b) + c =~= a + (b + c));
}

/// Parsing a counted upvalue list from its own encoding.
#[verifier::rlimit(100)]
#[verifier::spinoff_prover]
pub proof fn lemma_counted_upvals_rt(us: Seq<Upvalue>, h: ChunkHeader, rest: Seq<u8>)
    requires
        count_fits(us.len(), h.int_bytes),
    ensures
        parse_counted_upvals(
            (count_bytes(us.len(), h.int_bytes, h.endian) + upval_list_bytes(us)) + rest,
            h,
        ) == Ok::<(Seq<Upvalue>, nat), LuaError>((
            us,
            count_bytes(us.len(), h.int_bytes, h.endian).len() + upval_list_bytes(us).len(),
        )),
{
    reveal(crate::wire::parse_counted_upvals);
    let cu = count_bytes(us.len(), h.int_bytes, h.endian);
    let ul = upval_list_bytes(us);
    lemma_assoc(cu, ul, rest);
    lemma_count_rt(us.len(), h.int_bytes, h.endian, ul + rest);
    lemma_skip_concat(cu, ul + rest);
    lemma_upval_list_rt(us, rest);
}

/// Parsing the tail of a prototype (upvalue list, children, debug
/// tables) from its own encoding, at offset `pre.len()` of the
/// surrounding stream, fills those fields of `head`.
#[verifier::rlimit(100)]
#[verifier::spinoff_prover]
pub proof fn lemma_proto_close_rt(
    pv: ProtoView,
    h: ChunkHeader,
    depth: nat,
    head: ProtoView,
    pre: Seq<u8>,
    rest: Seq<u8>,
)
    requires
        depth >= 1,
        h.version == Version::Lua53 ==> count_fits(pv.upvalues.len(), h.int_bytes),
        h.version == Version::Lua51 ==> pv.upvalues.len() == 0,
        count_fits(pv.protos.len(), h.int_bytes),
        forall|i: int|
            0 <= i < pv.protos.len() ==> proto_wf(#[trigger] pv.protos[i], h, (depth - 1) as nat),
        debug_wf(pv.debug, h),
    ensures
        parse_proto_close(pre + (proto_close_bytes(pv, h) + rest), h, depth, head, pre.len())
            == Ok::<(ProtoView, nat), LuaError>((
            ProtoView { upvalues: pv.upvalues, protos: pv.protos, debug: pv.debug, ..head },
            pre.len() + proto_close_bytes(pv, h).len(),
        )),
    decreases depth, 0nat, 0nat,
{
    reveal(crate::wire::parse_proto_close);
    reveal(crate::wire::parse_proto_list);
    reveal(crate::wire::proto_close_bytes);
    reveal(crate::wire::proto_list_bytes);
    let s = pre + (proto_close_bytes(pv, h) + rest);
    let at = pre.len();
    let ub: Seq<u8> = if h.version == Version::Lua53 {
        count_bytes(pv.upvalues.len(), h.int_bytes, h.endian) + upval_list_bytes(pv.upvalues)
    } else {
        Seq::empty()
    };
    let c2 = count_bytes(pv.protos.len(), h.int_bytes, h.endian);
    let plb = proto_list_bytes(pv.protos, h);
    let db = debug_bytes(pv.debug, h);
    let t3 = db + rest;
    let t2 = plb + t3;
    let t1 = c2 + t2;
    lemma_skip_concat(pre, proto_close_bytes(pv, h) + rest);
    assert(proto_close_bytes(pv, h) == ((ub + c2) + plb) + db) by {
        reveal(crate::wire::proto_close_bytes);
    }
    lemma_assoc((ub + c2) + plb, db, rest);
    lemma_assoc(ub + c2, plb, t3);
    lemma_assoc(ub, c2, t2);
    assert(s.skip(at as int) == ub + t1);
    if h.version == Version::Lua53 {
        lemma_counted_upvals_rt(pv.upvalues, h, t1);
        assert(s.skip(at as int).skip(ub.len() as int) == t1) by {
            lemma_skip_concat(ub, t1);
        }
    } else {
        assert(pv.upvalues =~= Seq::<Upvalue>::empty());
        assert(ub + t1 =~= t1);
        assert(s.skip(at as int).skip(0) == s.skip(at as int));
    }
    assert(s.skip(at as int + ub.len() as int) == t1);
    lemma_count_rt(pv.protos.len(), h.int_bytes, h.endian, t2);
    lemma_skip_concat(c2, t2);
    lemma_proto_list_rt(pv.protos, h, (depth - 1) as nat, t3);
    lemma_skip_concat(plb, t3);
    lemma_debug_rt(pv.debug, h, rest);
}

/// Parsing the middle of a prototype (metadata bytes and counted
/// tables) when the stream from offset `at` on is their encoding.
#[verifier::rlimit(100)]
#[verifier::spinoff_prover]
pub proof fn lemma_proto_tail_rt(
    pv: ProtoView,
    h: ChunkHeader,
    depth: nat,
    s: Seq<u8>,
    at: nat,
    rest: Seq<u8>,
)
    requires
        proto_wf(pv, h, depth),
        at + 3 <= s.len(),
        s.skip(at as int) == seq![pv.num_params, pv.is_vararg, pv.max_stack_size] + (count_bytes(
            pv.code.len(),
            h.int_bytes,
            h.endian,
        ) + (code_list_bytes(pv.code, h) + (count_bytes(pv.constants.len(), h.int_bytes, h.endian)
            + (const_list_bytes(pv.constants, h) + (proto_close_bytes(pv, h) + rest))))),
    ensures
        parse_proto_tail(s, h, depth, pv.source, pv.line_defined, pv.last_line_defined, pv.nups,
            at) == Ok::<(ProtoView, nat), LuaError>((
            pv,
            at + 3 + count_bytes(pv.code.len(), h.int_bytes, h.endian).len() + code_list_bytes(
                pv.code,
                h,
            ).len() + count_bytes(pv.constants.len(), h.int_bytes, h.endian).len()
                + const_list_bytes(pv.constants, h).len() + proto_close_bytes(pv, h).len(),
        )),
    decreases depth, 0nat, 1nat,
{
    reveal(crate::wire::proto_wf);
    reveal(crate::wire::parse_proto_tail);
    reveal(crate::wire::parse_proto_close);
    let a5 = seq![pv.num_params, pv.is_vararg, pv.max_stack_size];
    let a6 = count_bytes(pv.code.len(), h.int_bytes, h.endian);
    let a7 = code_list_bytes(pv.code, h);
    let a8 = count_bytes(pv.constants.len(), h.int_bytes, h.endian);
    let a9 = const_list_bytes(pv.constants, h);
    let cl = proto_close_bytes(pv, h);
    let r9 = cl + rest;
    let r8 = a9 + r9;
    let r7 = a8 + r8;
    let r6 = a7 + r7;
    let r5 = a6 + r6;
    let r4 = a5 + r5;
    assert(s.skip(at as int) == r4);
    assert(s.len() >= at + 3 + a6.len() + a7.len() + a8.len() + a9.len() + cl.len() + rest.len())
        by {
        assert(s.skip(at as int).len() == s.len() - at);
    }
    let p0 = at + 3;
    assert(s[at as int] == pv.num_params && s[at as int + 1] == pv.is_vararg && s[at as int + 2]
        == pv.max_stack_size) by {
        assert(r4[0] == pv.num_params && r4[1] == pv.is_vararg && r4[2] == pv.max_stack_size);
        assert(s[at as int] == s.skip(at as int)[0]);
        assert(s[at as int + 1] == s.skip(at as int)[1]);
        assert(s[at as int + 2] == s.skip(at as int)[2]);
    }
    assert(s.skip(p0 as int) == r5) by {
        assert(r4.skip(3) =~= r5);
        assert(s.skip(at as int).skip(3) == s.skip(p0 as int));
    }
    lemma_count_rt(pv.code.len(), h.int_bytes, h.endian, r6);
    lemma_skip_concat(a6, r6);
    assert(s.skip(p0 as int + a6.len() as int) == r6);
    lemma_code_list_rt(pv.code, h, r7);
    lemma_skip_concat(a7, r7);
    assert(s.skip(p0 as int + a6.len() as int + a7.len() as int) == r7);
    lemma_count_rt(pv.constants.len(), h.int_bytes, h.endian, r8);
    lemma_skip_concat(a8, r8);
    assert(s.skip(p0 as int + a6.len() as int + a7.len() as int + a8.len() as int) == r8);
    lemma_const_list_rt(pv.constants, h, r9);
    lemma_skip_concat(a9, r9);
    let pre = s.take((p0 + a6.len() + a7.len() + a8.len() + a9.len()) as int);
    assert(s =~= pre + (cl + rest)) by {
        assert(s.skip((p0 + a6.len() + a7.len() + a8.len() + a9.len()) as int) == r9);
    }
    let head = ProtoView {
        source: pv.source,
        line_defined: pv.line_defined,
        last_line_defined: pv.last_line_defined,
        num_params: pv.num_params,
        is_vararg: pv.is_vararg,
        max_stack_size: pv.max_stack_size,
        code: pv.code,
        constants: pv.constants,
        upvalues: Seq::empty(),
        nups: pv.nups,
        protos: Seq::empty(),
        debug: DebugView {
            lineinfo: Seq::empty(),
            localvars: Seq::empty(),
            upvalues: Seq::empty(),
        },
    };
    lemma_proto_close_rt(pv, h, depth, head, pre, rest);
    assert(ProtoView { upvalues: pv.upvalues, protos: pv.protos, debug: pv.debug, ..head }
        =~= pv);
}

/// Parsing one prototype from its own encoding.
#[verifier::rlimit(100)]
#[verifier::spinoff_prover]
pub proof fn lemma_proto_rt(pv: ProtoView, h: ChunkHeader, depth: nat, rest: Seq<u8>)
    requires
        proto_wf(pv, h, depth),
    ensures
        parse_proto(proto_bytes(pv, h) + rest, h, depth) == Ok::<(ProtoView, nat), LuaError>((
            pv,
            proto_bytes(pv, h).len(),
        )),
    decreases depth, 0nat, 2nat, 0nat,
{
    reveal(crate::wire::proto_wf);
    reveal(crate::wire::parse_proto);
    reveal(crate::wire::parse_proto_tail);
    reveal(crate::wire::proto_bytes);
    reveal(crate::wire::proto_close_bytes);
    let s = proto_bytes(pv, h) + rest;
    let a1 = string_bytes(pv.source, h);
    let a2 = int_bytes_at(pv.line_defined, h.int_bytes, h.endian);
    let a3 = int_bytes_at(pv.last_line_defined, h.int_bytes, h.endian);
    let a4: Seq<u8> = if h.version == Version::Lua51 {
        seq![pv.nups]
    } else {
        Seq::empty()
    };
    let a5 = seq![pv.num_params, pv.is_vararg, pv.max_stack_size];
    let a6 = count_bytes(pv.code.len(), h.int_bytes, h.endian);
    let a7 = code_list_bytes(pv.code, h);
    let a8 = count_bytes(pv.constants.len(), h.int_bytes, h.endian);
    let a9 = const_list_bytes(pv.constants, h);
    let cl = proto_close_bytes(pv, h);
    let r9 = cl + rest;
    let r8 = a9 + r9;
    let r7 = a8 + r8;
    let r6 = a7 + r7;
    let r5 = a6 + r6;
    let r4 = a5 + r5;
    let r3 = a4 + r4;
    let r2 = a3 + r3;
    let r1 = a2 + r2;
    let l2 = a1 + a2;
    let l3 = l2 + a3;
    let l4 = l3 + a4;
    let l5 = l4 + a5;
    let l6 = l5 + a6;
    let l7 = l6 + a7;
    let l8 = l7 + a8;
    let l9 = l8 + a9;
    assert(proto_bytes(pv, h) == l9 + cl) by {
        reveal(crate::wire::proto_bytes);
    }
    lemma_assoc(l9, cl, rest);
    lemma_assoc(l8, a9, r9);
    lemma_assoc(l7, a8, r8);
    lemma_assoc(l6, a7, r7);
    lemma_assoc(l5, a6, r6);
    lemma_assoc(l4, a5, r5);
    lemma_assoc(l3, a4, r4);
    lemma_assoc(l2, a3, r3);
    lemma_assoc(a1, a2, r2);
    assert(s == a1 + r1);
    lemma_source_rt(pv.source, h, r1);
    lemma_skip_concat(a1, r1);
    assert(s.skip(a1.len() as int) == r1);
    lemma_int_rt(pv.line_defined, h.int_bytes, h.endian, r2);
    lemma_skip_concat(a2, r2);
    assert(s.skip(a1.len() as int + a2.len() as int) == r2);
    lemma_int_rt(pv.last_line_defined, h.int_bytes, h.endian, r3);
    lemma_skip_concat(a3, r3);
    assert(s.skip(a1.len() as int + a2.len() as int + a3.len() as int) == r3);
    let at = (a1.len() + a2.len() + a3.len() + a4.len()) as nat;
    if h.version == Version::Lua51 {
        lemma_skip_concat(a4, r4);
    }
    assert(s.skip(at as int) == r4);
    assert(at + 3 <= s.len()) by {
        assert(s.skip(at as int).len() == s.len() - at);
    }
    lemma_proto_tail_rt(pv, h, depth, s, at, rest);
    assert(proto_bytes(pv, h).len() == at + 3 + a6.len() + a7.len() + a8.len() + a9.len()
        + cl.len());
}

/// Parsing a list of prototypes from its own encoding.
#[verifier::rlimit(100)]
#[verifier::spinoff_prover]
pub proof fn lemma_proto_list_rt(items: Seq<ProtoView>, h: ChunkHeader, depth: nat, rest: Seq<u8>)
    requires
        forall|i: int| 0 <= i < items.len() ==> proto_wf(#[trigger] items[i], h, depth),
    ensures
        parse_proto_list(proto_list_bytes(items, h) + rest, h, depth, items.len()) == Ok::<
            (Seq<ProtoView>, nat),
            LuaError,
        >((items, proto_list_bytes(items, h).len())),
    decreases depth, 0nat, 3nat, items.len(),
{
    reveal(crate::wire::parse_proto_list);
    reveal(crate::wire::parse_proto);
    if items.len() == 0 {
        assert(items =~= Seq::<ProtoView>::empty());
        crate::wire::lemma_proto_list_bytes_empty(items, h);
        assert(proto_list_bytes(items, h) + rest =~= rest);
    } else {
        let ib = proto_bytes(items[0], h);
        let tl = items.subrange(1, items.len() as int);
        let lb = proto_list_bytes(tl, h);
        crate::wire::lemma_proto_list_bytes_step(items, h);
        assert(proto_list_bytes(items, h) + rest =~= ib + (lb + rest));
        lemma_proto_rt(items[0], h, depth, lb + rest);
        assert((ib + (lb + rest)).skip(ib.len() as int) =~= lb + rest);
        lemma_proto_list_rt(tl, h, depth, rest);
        assert(seq![items[0]] + tl =~= items);
    }
}

/// Parsing a header from its own encoding recovers the header: in
/// particular, a revision B header stored under either byte order
/// decodes with that byte order, from the sentinel integer alone.
#[verifier::rlimit(100)]
#[verifier::spinoff_prover]
pub proof fn lemma_header_rt(h: ChunkHeader, rest: Seq<u8>)
    requires
        header_wf(h),
    ensures
        parse_header(header_bytes(h) + rest) == Ok::<(ChunkHeader, nat), LuaError>((
            h,
            header_parsed_len(h),
        )),
{
    reveal(crate::wire::parse_header);
    reveal(crate::wire::parse_header_a);
    reveal(crate::wire::parse_header_b);
    reveal(crate::wire::header_bytes);
    let s = header_bytes(h) + rest;
    match h.version {
        Version::Lua51 => {
            assert(s[0] == 0x1B && s[1] == 0x4C && s[2] == 0x75 && s[3] == 0x61);
            assert(s[4] == 0x51 && s[5] == 0);
            assert(s[6] == crate::wire::endian_byte(h.endian));
            assert(s[7] == width_byte(h.int_bytes) && s[8] == width_byte(h.size_bytes) && s[9]
                == width_byte(h.inst_bytes) && s[10] == width_byte(h.lua_number_bytes));
            assert(width_of_byte(width_byte(h.int_bytes)) == Option::Some(h.int_bytes));
            assert(width_of_byte(width_byte(h.size_bytes)) == Option::Some(h.size_bytes));
            assert(width_of_byte(width_byte(h.inst_bytes)) == Option::Some(h.inst_bytes));
            assert(width_of_byte(width_byte(h.lua_number_bytes)) == Option::Some(
                h.lua_number_bytes,
            ));
        },
        Version::Lua53 => {
            let fixed = header_bytes(h).take(17);
            let ib = word_bytes(TEST_INT, h.lua_integer_bytes, h.endian);
            let nb = sentinel_num_bytes(h.lua_number_bytes, h.endian);
            assert(nb.len() == h.lua_number_bytes.spec_width());
            assert(header_bytes(h) =~= fixed + (ib + nb)) by {
                lemma_assoc(fixed, ib, nb);
            }
            assert(s =~= fixed + (ib + (nb + rest))) by {
                lemma_assoc(ib, nb, rest);
                lemma_assoc(fixed, ib + nb, rest);
            }
            assert(s[0] == 0x1B && s[1] == 0x4C && s[2] == 0x75 && s[3] == 0x61);
            assert(s[4] == 0x53 && s[5] == 0);
            assert(s[6] == 0x19 && s[7] == 0x93 && s[8] == 0x0D && s[9] == 0x0A && s[10] == 0x1A
                && s[11] == 0x0A);
            assert(width_of_byte(width_byte(h.int_bytes)) == Option::Some(h.int_bytes));
            assert(width_of_byte(width_byte(h.size_bytes)) == Option::Some(h.size_bytes));
            assert(width_of_byte(width_byte(h.inst_bytes)) == Option::Some(h.inst_bytes));
            assert(width_of_byte(width_byte(h.lua_integer_bytes)) == Option::Some(
                h.lua_integer_bytes,
            ));
            assert(width_of_byte(width_byte(h.lua_number_bytes)) == Option::Some(
                h.lua_number_bytes,
            ));
            lemma_skip_concat(fixed, ib + (nb + rest));
            assert(s.skip(17) == ib + (nb + rest));
            assert((ib + (nb + rest)).take(ib.len() as int) =~= ib);
            lemma_word_val_of_bytes(TEST_INT, h.lua_integer_bytes, h.endian, ib + (nb + rest));
            if h.endian == LuaEndianness::Little {
                assert(word_val(ib + (nb + rest), h.lua_integer_bytes, LuaEndianness::Big)
                    != TEST_INT) by {
                    reveal(crate::wire::word_val);
                    reveal(crate::wire::word_bytes);
                    assert((ib + (nb + rest)).take(ib.len() as int) =~= ib);
                }
            }
            assert(s.skip(17).skip(ib.len() as int) == nb + rest) by {
                lemma_skip_concat(ib, nb + rest);
            }
            assert(s.skip(17 + h.lua_integer_bytes.spec_width() as int) == nb + rest);
            match h.lua_number_bytes {
                ValueSize::Four => {
                    assert((nb + rest).take(nb.len() as int) =~= nb);
                    lemma_word_val_of_bytes(
                        NUM_SENTINEL_32 as u64,
                        ValueSize::Four,
                        h.endian,
                        nb + rest,
                    );
                    assert(crate::numbits::spec_widen(NUM_SENTINEL_32) == NUM_SENTINEL) by {
                        assert(NUM_SENTINEL_32 / 0x8000_0000 == 0);
                        assert((NUM_SENTINEL_32 / 0x80_0000) % 0x100 == 0x87);
                        assert(NUM_SENTINEL_32 % 0x80_0000 == 0x39_4000);
                    }
                    assert(num_sentinel_ok(NUM_SENTINEL));
                },
                ValueSize::Eight => {
                    assert((nb + rest).take(nb.len() as int) =~= nb);
                    lemma_word_val_of_bytes(NUM_SENTINEL, ValueSize::Eight, h.endian, nb + rest);
                    assert(num_sentinel_ok(NUM_SENTINEL));
                },
            }
        },
    }
}

/// The round trip of a whole chunk: parsing the canonical encoding of
/// any well-formed chunk, with anything after it, yields exactly that
/// chunk and consumes exactly its encoding. With the contracts of the
/// chunk writer and reader this means decoding an encoded chunk gives
/// the chunk back, for both revisions and both byte orders, including
/// all nested prototypes, constants and debug tables.
#[verifier::rlimit(100)]
#[verifier::spinoff_prover]
pub proof fn lemma_chunk_rt(cv: ChunkView, rest: Seq<u8>)
    requires
        chunk_wf(cv),
    ensures
        parse_chunk(chunk_bytes(cv) + rest) == Ok::<(ChunkView, nat), LuaError>((
            cv,
            chunk_bytes(cv).len(),
        )),
{
    reveal(crate::wire::parse_chunk);
    let hb = header_bytes(cv.header);
    let pb = proto_bytes(cv.proto, cv.header);
    let s = chunk_bytes(cv) + rest;
    assert(s =~= hb + (pb + rest)) by {
        lemma_assoc(hb, pb, rest);
    }
    lemma_header_rt(cv.header, pb + rest);
    lemma_skip_concat(hb, pb + rest);
    assert(hb.len() == header_parsed_len(cv.header)) by {
        reveal(crate::wire::header_bytes);
    }
    lemma_proto_rt(cv.proto, cv.header, MAX_PROTO_DEPTH as nat, rest);
}

/// The string boundary of revision B: a string shorter than the
/// escape threshold uses the one-byte length form.
pub proof fn lemma_string_short_form(b: Seq<u8>, h: ChunkHeader)
    requires
        h.version == Version::Lua53,
        b.len() + 1 < 0xFF,
    ensures
        string_bytes(Option::Some(b), h) == seq![(b.len() + 1) as u8] + b,
{
    reveal(crate::wire::string_bytes);
}

/// The string boundary of revision B: from the escape threshold on,
/// a string uses the escape byte and a full-width length.
pub proof fn lemma_string_long_form(b: Seq<u8>, h: ChunkHeader)
    requires
        h.version == Version::Lua53,
        b.len() + 1 >= 0xFF,
    ensures
        string_bytes(Option::Some(b), h) == seq![0xFFu8] + word_bytes(
            (b.len() + 1) as u64,
            h.size_bytes,
            h.endian,
        ) + b,
{
    reveal(crate::wire::string_bytes);
}

/// The alternate-VM container is rejected as an unsupported format
/// from its three-byte prefix alone, whatever follows.
pub proof fn lemma_alternate_vm_rejected(s: Seq<u8>)
    requires
        s.len() >= 3,
        s[0] == 0x01,
        s[1] == 0x4C,
        s[2] == 0x4A,
    ensures
        parse_chunk(s) == Err::<(ChunkView, nat), LuaError>(LuaError::UnsupportedFormat),
{
    reveal(crate::wire::parse_chunk);
    reveal(crate::wire::parse_header);
}

} // verus!
