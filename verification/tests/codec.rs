//! End-to-end tests of the chunk codec: header parsing, round trips
//! in both revisions and byte orders, string boundaries, rejection of
//! malformed input, and the error taxonomy.

use luachunk::numbits::widen32;
use luachunk::read::{read_chunk, read_header};
use luachunk::types::{
    Chunk, ChunkHeader, Constant, LuaDebug, LuaDebugLocalVar, LuaEndianness, LuaError, Prototype,
    Upvalue, ValueSize, Version,
};
use luachunk::wire::{NUM_SENTINEL, NUM_SENTINEL_32, NUM_TOLERANCE};
use luachunk::write::{write_chunk, write_file};

fn header_51_le() -> ChunkHeader {
    ChunkHeader {
        version: Version::Lua51,
        endian: LuaEndianness::Little,
        int_bytes: ValueSize::Four,
        size_bytes: ValueSize::Four,
        inst_bytes: ValueSize::Four,
        lua_integer_bytes: ValueSize::Eight,
        lua_number_bytes: ValueSize::Eight,
        integral_flag: false,
    }
}

fn header_53(endian: LuaEndianness) -> ChunkHeader {
    ChunkHeader {
        version: Version::Lua53,
        endian,
        int_bytes: ValueSize::Four,
        size_bytes: ValueSize::Four,
        inst_bytes: ValueSize::Four,
        lua_integer_bytes: ValueSize::Eight,
        lua_number_bytes: ValueSize::Eight,
        integral_flag: false,
    }
}

fn header_51_bytes_le() -> Vec<u8> {
    vec![0x1B, 0x4C, 0x75, 0x61, 0x51, 0, 1, 4, 4, 4, 8, 0]
}

fn header_53_bytes_le() -> Vec<u8> {
    let mut v = vec![
        0x1B, 0x4C, 0x75, 0x61, 0x53, 0, 0x19, 0x93, 0x0D, 0x0A, 0x1A, 0x0A, 4, 4, 4, 8, 8,
    ];
    v.extend_from_slice(&0x5678u64.to_le_bytes());
    v.extend_from_slice(&370.5f64.to_le_bytes());
    v
}

fn empty_debug() -> LuaDebug {
    LuaDebug { lineinfo: Vec::new(), localvars: Vec::new(), upvalues: Vec::new() }
}

fn leaf_proto_51() -> Prototype {
    Prototype {
        source: None,
        line_defined: 3,
        last_line_defined: 4,
        num_params: 1,
        is_vararg: 0,
        max_stack_size: 2,
        code: vec![0x0080_0001, 0x0000_001E],
        constants: vec![
            Constant::Nil,
            Constant::Boolean(true),
            Constant::Number(370.5f64.to_bits()),
            Constant::String(b"hi\0".to_vec()),
        ],
        upvalues: Vec::new(),
        nups: 0,
        protos: Vec::new(),
        debug: LuaDebug {
            lineinfo: vec![3, 4],
            localvars: vec![LuaDebugLocalVar { name: b"x\0".to_vec(), start_pc: 0, end_pc: 1 }],
            upvalues: Vec::new(),
        },
    }
}

fn chunk_51_le() -> Chunk {
    Chunk {
        header: header_51_le(),
        proto: Prototype {
            source: Some(b"@test.lua\0".to_vec()),
            line_defined: 0,
            last_line_defined: 0,
            num_params: 0,
            is_vararg: 2,
            max_stack_size: 2,
            code: vec![0x0000_0024, 0x0080_001E],
            constants: vec![Constant::Number(1.0f64.to_bits())],
            upvalues: Vec::new(),
            nups: 0,
            protos: vec![leaf_proto_51()],
            debug: LuaDebug {
                lineinfo: vec![1, 1],
                localvars: Vec::new(),
                upvalues: Vec::new(),
            },
        },
    }
}

#[test]
fn test_header_51() {
    let header = read_header(&header_51_bytes_le()).unwrap();
    assert_eq!(
        header,
        ChunkHeader {
            version: Version::Lua51,
            endian: LuaEndianness::Little,
            int_bytes: ValueSize::Four,
            size_bytes: ValueSize::Four,
            inst_bytes: ValueSize::Four,
            lua_integer_bytes: ValueSize::Eight,
            lua_number_bytes: ValueSize::Eight,
            integral_flag: false,
        }
    );
}

#[test]
fn test_header_53() {
    let header = read_header(&header_53_bytes_le()).unwrap();
    assert_eq!(
        header,
        ChunkHeader {
            version: Version::Lua53,
            endian: LuaEndianness::Little,
            int_bytes: ValueSize::Four,
            size_bytes: ValueSize::Four,
            inst_bytes: ValueSize::Four,
            lua_integer_bytes: ValueSize::Eight,
            lua_number_bytes: ValueSize::Eight,
            integral_flag: false,
        }
    );
}

#[test]
fn test_chunk_51_le() {
    let chunk = chunk_51_le();
    let bytes = write_file(&chunk).unwrap();
    let decoded = read_chunk(&bytes).unwrap();
    assert_eq!(decoded, chunk_51_le());
    let mut out = Vec::new();
    write_chunk(&mut out, &decoded).unwrap();
    assert_eq!(&bytes[..], &out[..]);
}

#[test]
fn header_decoding_is_repeatable() {
    let bytes = header_53_bytes_le();
    let first = read_header(&bytes).unwrap();
    let second = read_header(&bytes).unwrap();
    assert_eq!(first, second);
}

fn chunk_53(endian: LuaEndianness) -> Chunk {
    Chunk {
        header: header_53(endian),
        proto: Prototype {
            source: Some(b"@m.lua".to_vec()),
            line_defined: 0,
            last_line_defined: 9,
            num_params: 0,
            is_vararg: 1,
            max_stack_size: 3,
            code: vec![1, 2, 3],
            constants: vec![
                Constant::Integer(-7),
                Constant::Integer(0x1234_5678_9ABC_DEF0),
                Constant::Number(0.5f64.to_bits()),
                Constant::String(Vec::new()),
            ],
            upvalues: vec![Upvalue::Stack(0), Upvalue::Outer(1)],
            nups: 0,
            protos: Vec::new(),
            debug: LuaDebug {
                lineinfo: vec![1, 2, 3],
                localvars: Vec::new(),
                upvalues: vec![b"_ENV".to_vec(), b"u".to_vec()],
            },
        },
    }
}

#[test]
fn round_trip_53_little_endian() {
    let chunk = chunk_53(LuaEndianness::Little);
    let bytes = write_file(&chunk).unwrap();
    let decoded = read_chunk(&bytes).unwrap();
    assert_eq!(decoded, chunk_53(LuaEndianness::Little));
}

#[test]
fn round_trip_53_big_endian() {
    let chunk = chunk_53(LuaEndianness::Big);
    let bytes = write_file(&chunk).unwrap();
    let decoded = read_chunk(&bytes).unwrap();
    assert_eq!(decoded, chunk_53(LuaEndianness::Big));
}

#[test]
fn endianness_detected_from_sentinels() {
    let le = write_file(&chunk_53(LuaEndianness::Little)).unwrap();
    assert_eq!(read_header(&le).unwrap().endian, LuaEndianness::Little);
    let be = write_file(&chunk_53(LuaEndianness::Big)).unwrap();
    assert_eq!(read_header(&be).unwrap().endian, LuaEndianness::Big);
}

#[test]
fn corrupt_integer_sentinel_is_rejected() {
    let mut bytes = header_53_bytes_le();
    bytes[17] = 0x79;
    assert_eq!(read_header(&bytes), Err(LuaError::BadEndiannessSentinel));
}

#[test]
fn corrupt_number_sentinel_is_rejected() {
    let mut bytes = header_53_bytes_le();
    bytes[25 + 7] = 0x41;
    assert_eq!(read_header(&bytes), Err(LuaError::BadNumberSentinel));
}

#[test]
fn number_sentinel_tolerance_matches_the_patterns() {
    assert_eq!(NUM_SENTINEL, 370.5f64.to_bits());
    assert_eq!(NUM_SENTINEL_32, 370.5f32.to_bits());
    let hi = f64::from_bits(NUM_SENTINEL + NUM_TOLERANCE);
    let beyond = f64::from_bits(NUM_SENTINEL + NUM_TOLERANCE + 1);
    assert!((hi - 370.5f64).abs() <= 0.0001);
    assert!((beyond - 370.5f64).abs() > 0.0001);
}

fn string_chunk_53(len: usize) -> Chunk {
    let mut c = chunk_53(LuaEndianness::Little);
    c.proto.constants = vec![Constant::String(vec![0x61; len])];
    c.proto.upvalues = Vec::new();
    c.proto.debug.upvalues = Vec::new();
    c
}

#[test]
fn string_of_253_bytes_uses_the_short_form() {
    let bytes = write_file(&string_chunk_53(253)).unwrap();
    // the one-byte form stores length + 1 = 254 and never 0xFF
    assert!(bytes.windows(254).any(|w| w[0] == 254 && w[1..].iter().all(|&b| b == 0x61)));
    let decoded = read_chunk(&bytes).unwrap();
    assert_eq!(decoded.proto.constants[0], Constant::String(vec![0x61; 253]));
}

#[test]
fn string_of_254_bytes_uses_the_escape_form() {
    let bytes = write_file(&string_chunk_53(254)).unwrap();
    // the escape byte, then the length 255 at the four-byte size width
    assert!(bytes.windows(5).any(|w| w == [0xFF, 255, 0, 0, 0]));
    let decoded = read_chunk(&bytes).unwrap();
    assert_eq!(decoded.proto.constants[0], Constant::String(vec![0x61; 254]));
}

#[test]
fn absent_and_empty_stay_distinct_in_revision_a() {
    let mut absent = chunk_51_le();
    absent.proto.source = None;
    let bytes = write_file(&absent).unwrap();
    assert_eq!(read_chunk(&bytes).unwrap().proto.source, None);

    let mut empty = chunk_51_le();
    // the empty string of the source format: one terminator byte
    empty.proto.source = Some(vec![0]);
    let bytes = write_file(&empty).unwrap();
    assert_eq!(read_chunk(&bytes).unwrap().proto.source, Some(vec![0]));
}

#[test]
fn empty_present_source_is_not_encodable_in_revision_a() {
    let mut c = chunk_51_le();
    c.proto.source = Some(Vec::new());
    assert_eq!(write_file(&c), Err(LuaError::NotEncodable));
}

#[test]
fn alternate_vm_prefix_is_rejected() {
    let bytes = vec![0x01, 0x4C, 0x4A, 0xAB, 0xCD, 0xEF];
    assert_eq!(read_chunk(&bytes), Err(LuaError::UnsupportedFormat));
    // rejected from the prefix alone: nothing further is present
    let short = vec![0x01, 0x4C, 0x4A];
    assert_eq!(read_chunk(&short), Err(LuaError::UnsupportedFormat));
}

fn nested_chunk() -> Chunk {
    let mut level3 = leaf_proto_51();
    level3.constants = vec![Constant::String(b"three\0".to_vec())];
    let mut level2 = leaf_proto_51();
    level2.constants = vec![Constant::String(b"two\0".to_vec())];
    level2.protos = vec![level3];
    let mut level1 = leaf_proto_51();
    level1.constants = vec![Constant::String(b"one\0".to_vec())];
    level1.protos = vec![level2];
    let mut chunk = chunk_51_le();
    chunk.proto.protos = vec![level1];
    chunk
}

#[test]
fn nested_prototypes_round_trip_byte_identically() {
    let bytes = write_file(&nested_chunk()).unwrap();
    let decoded = read_chunk(&bytes).unwrap();
    assert_eq!(decoded.proto.protos.len(), 1);
    let l1 = &decoded.proto.protos[0];
    assert_eq!(l1.constants, vec![Constant::String(b"one\0".to_vec())]);
    assert_eq!(l1.protos.len(), 1);
    let l2 = &l1.protos[0];
    assert_eq!(l2.constants, vec![Constant::String(b"two\0".to_vec())]);
    assert_eq!(l2.protos.len(), 1);
    let l3 = &l2.protos[0];
    assert_eq!(l3.constants, vec![Constant::String(b"three\0".to_vec())]);
    assert_eq!(l3.protos.len(), 0);
    let reencoded = write_file(&decoded).unwrap();
    assert_eq!(bytes, reencoded);
}

#[test]
fn mixed_widths_decode_without_cross_contamination() {
    let chunk = Chunk {
        header: ChunkHeader {
            version: Version::Lua53,
            endian: LuaEndianness::Little,
            int_bytes: ValueSize::Four,
            size_bytes: ValueSize::Eight,
            inst_bytes: ValueSize::Four,
            lua_integer_bytes: ValueSize::Eight,
            lua_number_bytes: ValueSize::Four,
            integral_flag: false,
        },
        proto: Prototype {
            source: None,
            line_defined: -5,
            last_line_defined: 70000,
            num_params: 2,
            is_vararg: 0,
            max_stack_size: 5,
            code: vec![0xFFFF_FFFF, 0],
            constants: vec![
                Constant::Integer(-0x1234_5678_9ABC_DEF0),
                // exactly representable at the four-byte number width
                Constant::Number(2.5f64.to_bits()),
            ],
            upvalues: Vec::new(),
            nups: 0,
            protos: Vec::new(),
            debug: empty_debug(),
        },
    };
    let bytes = write_file(&chunk).unwrap();
    let decoded = read_chunk(&bytes).unwrap();
    assert_eq!(decoded.proto.line_defined, -5);
    assert_eq!(decoded.proto.last_line_defined, 70000);
    assert_eq!(decoded.proto.code, vec![0xFFFF_FFFF, 0]);
    assert_eq!(decoded.proto.constants[0], Constant::Integer(-0x1234_5678_9ABC_DEF0));
    assert_eq!(decoded.proto.constants[1], Constant::Number(2.5f64.to_bits()));
}

#[test]
fn number_not_exact_at_width_four_is_not_encodable() {
    let mut chunk = chunk_53(LuaEndianness::Little);
    chunk.header.lua_number_bytes = ValueSize::Four;
    chunk.proto.constants = vec![Constant::Number(0.1f64.to_bits())];
    assert_eq!(write_file(&chunk), Err(LuaError::NotEncodable));
}

#[test]
fn integer_constant_is_not_encodable_in_revision_a() {
    let mut chunk = chunk_51_le();
    chunk.proto.constants = vec![Constant::Integer(1)];
    assert_eq!(write_file(&chunk), Err(LuaError::NotEncodable));
}

#[test]
fn line_beyond_the_int_width_is_not_encodable() {
    let mut chunk = chunk_51_le();
    chunk.proto.line_defined = 0x1_0000_0000;
    assert_eq!(write_file(&chunk), Err(LuaError::NotEncodable));
}

#[test]
fn bad_signature_is_rejected() {
    let bytes = vec![0x1B, 0x4C, 0x75, 0x62, 0x51, 0];
    assert_eq!(read_header(&bytes), Err(LuaError::BadSignature));
}

#[test]
fn unknown_version_is_rejected() {
    let bytes = vec![0x1B, 0x4C, 0x75, 0x61, 0x52, 0];
    assert_eq!(read_header(&bytes), Err(LuaError::UnsupportedVersion(0x52)));
}

#[test]
fn nonzero_format_is_rejected() {
    let bytes = vec![0x1B, 0x4C, 0x75, 0x61, 0x51, 1];
    assert_eq!(read_header(&bytes), Err(LuaError::UnsupportedFormat));
}

#[test]
fn bad_width_descriptor_is_rejected() {
    let mut bytes = header_51_bytes_le();
    bytes[7] = 2;
    assert_eq!(read_header(&bytes), Err(LuaError::UnsupportedWidth(2)));
}

#[test]
fn bad_endianness_byte_is_rejected() {
    let mut bytes = header_51_bytes_le();
    bytes[6] = 2;
    assert_eq!(read_header(&bytes), Err(LuaError::UnsupportedEndianness(2)));
}

#[test]
fn bad_sentinel_data_is_rejected() {
    let mut bytes = header_53_bytes_le();
    bytes[6] = 0x18;
    assert_eq!(read_header(&bytes), Err(LuaError::BadSentinelData));
}

#[test]
fn unknown_constant_tag_is_rejected() {
    let mut bytes = write_file(&chunk_51_le()).unwrap();
    // the first constant tag of the top-level prototype follows the
    // source string, two line ints, four metadata bytes, the code
    // count, two instructions, and the constant count
    let tag_at = 12 + (4 + 10) + 4 + 4 + 4 + (4 + 8) + 4;
    assert_eq!(bytes[tag_at], 0x03);
    bytes[tag_at] = 0x7E;
    assert_eq!(read_chunk(&bytes), Err(LuaError::UnknownConstantTag(0x7E)));
}

#[test]
fn truncated_input_is_rejected() {
    let bytes = write_file(&chunk_51_le()).unwrap();
    let cut = bytes[..bytes.len() - 3].to_vec();
    assert_eq!(read_chunk(&cut), Err(LuaError::UnexpectedEndOfInput));
}

#[test]
fn negative_count_is_rejected() {
    let mut bytes = header_51_bytes_le();
    // absent source, two zero lines, four metadata bytes, then a
    // negative instruction count
    bytes.extend_from_slice(&[0, 0, 0, 0]);
    bytes.extend_from_slice(&[0, 0, 0, 0]);
    bytes.extend_from_slice(&[0, 0, 0, 0]);
    bytes.extend_from_slice(&[0, 0, 0, 2]);
    bytes.extend_from_slice(&[0xFF, 0xFF, 0xFF, 0xFF]);
    assert_eq!(read_chunk(&bytes), Err(LuaError::LengthOverflow));
}

#[test]
fn nesting_beyond_the_guard_is_rejected() {
    let mut bytes = header_51_bytes_le();
    for _ in 0..200 {
        // each level: absent source, two lines, four metadata bytes,
        // empty code, empty constants, then one nested prototype
        bytes.extend_from_slice(&[0, 0, 0, 0]);
        bytes.extend_from_slice(&[0, 0, 0, 0]);
        bytes.extend_from_slice(&[0, 0, 0, 0]);
        bytes.extend_from_slice(&[0, 0, 1, 2]);
        bytes.extend_from_slice(&[0, 0, 0, 0]);
        bytes.extend_from_slice(&[0, 0, 0, 0]);
        bytes.extend_from_slice(&[1, 0, 0, 0]);
    }
    assert_eq!(read_chunk(&bytes), Err(LuaError::NestingTooDeep));
}

#[test]
fn too_deep_a_tree_is_not_encodable() {
    let mut proto = leaf_proto_51();
    for _ in 0..200 {
        let mut outer = leaf_proto_51();
        outer.protos = vec![proto];
        proto = outer;
    }
    let chunk = Chunk { header: header_51_le(), proto };
    assert_eq!(write_file(&chunk), Err(LuaError::NotEncodable));
}

#[test]
fn widening_agrees_with_the_native_conversion() {
    let samples: Vec<f32> = vec![
        0.0,
        -0.0,
        1.0,
        -1.5,
        370.5,
        f32::MIN_POSITIVE,
        1.0e-40,
        f32::MAX,
        f32::INFINITY,
        f32::NEG_INFINITY,
    ];
    for f in samples {
        assert_eq!(widen32(f.to_bits()), (f as f64).to_bits());
    }
}

#[test]
fn boolean_byte_values_beyond_one_decode_as_true() {
    let mut bytes = write_file(&chunk_51_le()).unwrap();
    let mut probe = chunk_51_le();
    probe.proto.constants = vec![Constant::Boolean(false)];
    // rebuild with a boolean constant and patch its payload byte
    probe.proto.protos = Vec::new();
    probe.proto.debug = empty_debug();
    bytes = write_file(&probe).unwrap();
    let tag_at = 12 + (4 + 10) + 4 + 4 + 4 + (4 + 8) + 4;
    assert_eq!(bytes[tag_at], 0x01);
    bytes[tag_at + 1] = 7;
    let decoded = read_chunk(&bytes).unwrap();
    assert_eq!(decoded.proto.constants[0], Constant::Boolean(true));
}
