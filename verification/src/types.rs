//! Value types for binary chunks, their ghost views, and the error taxonomy.

use vstd::prelude::*;

verus! {

/// The wire-format revision of a chunk. `Lua51` is revision A,
/// `Lua53` is revision B; the two differ in field order, string
/// encoding and width descriptors.
#[derive(Clone, Copy, Debug, PartialEq, Eq, Structural)]
pub enum Version {
    Lua51,
    Lua53,
}

/// The width, in bytes, of one multi-byte scalar kind in a chunk.
#[derive(Clone, Copy, Debug, PartialEq, Eq, Structural)]
pub enum ValueSize {
    Four,
    Eight,
}

/// The byte order of every multi-byte scalar in a chunk.
#[derive(Clone, Copy, Debug, PartialEq, Eq, Structural)]
pub enum LuaEndianness {
    Little,
    Big,
}

impl ValueSize {
    /// The width as a number of bytes.
    pub open spec fn spec_width(self) -> nat {
        match self {
            ValueSize::Four => 4,
            ValueSize::Eight => 8,
        }
    }

    /// Executable counterpart of `spec_width`.
    pub fn width(self) -> (w: usize)
        ensures
            w == self.spec_width(),
    {
        match self {
            ValueSize::Four => 4,
            ValueSize::Eight => 8,
        }
    }
}

/// The self-describing preamble of a chunk. Its widths and byte order
/// determine how every later scalar in the stream is interpreted.
#[derive(Clone, Copy, Debug, PartialEq, Eq, Structural)]
pub struct ChunkHeader {
    /// The wire-format revision of this chunk.
    pub version: Version,
    /// The byte order of every multi-byte field after the preamble.
    pub endian: LuaEndianness,
    /// The width of the `int` scalar (line numbers, sequence counts).
    pub int_bytes: ValueSize,
    /// The width of the `size_t` scalar (string sizes).
    pub size_bytes: ValueSize,
    /// The width of one instruction.
    pub inst_bytes: ValueSize,
    /// The width of the integer constant scalar. Revision B carries it
    /// on the wire; revision A fixes it to eight bytes.
    pub lua_integer_bytes: ValueSize,
    /// The width of the number constant scalar.
    pub lua_number_bytes: ValueSize,
    /// Revision A only: whether numbers are stored in an integral format.
    pub integral_flag: bool,
}

/// An entry in the upvalue list of a revision B prototype.
#[derive(Clone, Copy, Debug, PartialEq, Eq, Structural)]
pub enum Upvalue {
    /// Captured from the enclosing function's own upvalue list.
    Outer(u8),
    /// Captured from a register of the enclosing function.
    Stack(u8),
}

/// An entry in the constant pool.
///
/// A `Number` holds the 64-bit IEEE-754 pattern of the value; the codec
/// never interprets it beyond widening the 32-bit wire pattern when the
/// chunk declares a four-byte number width.
#[derive(Clone, Debug, PartialEq)]
pub enum Constant {
    /// The nil value.
    Nil,
    /// A boolean.
    Boolean(bool),
    /// A number, as the 64-bit IEEE-754 pattern of its value.
    Number(u64),
    /// A signed integer (revision B only).
    Integer(i64),
    /// A byte string; the format imposes no text encoding.
    String(Vec<u8>),
}

/// An entry in the local-variable debug table.
#[derive(Clone, Debug, PartialEq)]
pub struct LuaDebugLocalVar {
    /// The variable's name.
    pub name: Vec<u8>,
    /// The instruction at which the variable comes into scope.
    pub start_pc: i64,
    /// The instruction at which the variable goes out of scope.
    pub end_pc: i64,
}

/// Optional debug metadata of a prototype. A prototype without debug
/// information carries all three tables empty; the format has no
/// separate presence flag.
#[derive(Clone, Debug, Default, PartialEq)]
pub struct LuaDebug {
    /// One source line number per instruction.
    pub lineinfo: Vec<i64>,
    /// Names and scopes of local variables.
    pub localvars: Vec<LuaDebugLocalVar>,
    /// Names of upvalues.
    pub upvalues: Vec<Vec<u8>>,
}

/// One function prototype: metadata, code, constants, nested prototypes
/// and debug tables. Each prototype exclusively owns its children; the
/// structure is a strict tree.
#[derive(Debug, PartialEq)]
pub struct Prototype {
    /// The source name, or `None` when the chunk carries none. An absent
    /// name and an empty one are distinct on the wire and stay distinct
    /// here.
    pub source: Option<Vec<u8>>,
    /// The line at which the function starts.
    pub line_defined: i64,
    /// The line at which the function ends.
    pub last_line_defined: i64,
    /// The number of fixed parameters.
    pub num_params: u8,
    /// The vararg descriptor byte, kept exactly as on the wire.
    pub is_vararg: u8,
    /// The number of registers the function needs.
    pub max_stack_size: u8,
    /// The instruction sequence; each instruction is an opaque scalar.
    pub code: Vec<u64>,
    /// The constant pool.
    pub constants: Vec<Constant>,
    /// The upvalue list (revision B; empty in revision A).
    pub upvalues: Vec<Upvalue>,
    /// The upvalue count byte of revision A (zero in revision B, whose
    /// wire format carries the explicit list instead).
    pub nups: u8,
    /// The nested function prototypes.
    pub protos: Vec<Prototype>,
    /// The debug tables.
    pub debug: LuaDebug,
}

/// A complete chunk: preamble plus the top-level prototype.
#[derive(Debug, PartialEq)]
pub struct Chunk {
    /// The self-describing preamble.
    pub header: ChunkHeader,
    /// The top-level function prototype.
    pub proto: Prototype,
}

/// Why a decode or encode call failed. Every error is terminal for the
/// call: the format has no redundancy, so nothing is repaired or skipped.
#[derive(Clone, Copy, Debug, PartialEq, Eq, Structural)]
pub enum LuaError {
    /// The four-byte signature did not match the canonical one.
    BadSignature,
    /// The alternate-VM container was detected, or the format byte was
    /// not zero.
    UnsupportedFormat,
    /// The version byte maps to no known revision; carries that byte.
    UnsupportedVersion(u8),
    /// A width descriptor was neither four nor eight; carries that byte.
    UnsupportedWidth(u8),
    /// The revision A endianness byte was neither zero nor one; carries
    /// that byte.
    UnsupportedEndianness(u8),
    /// The fixed sentinel byte sequence of revision B did not match.
    BadSentinelData,
    /// The sentinel integer of revision B matched under neither byte
    /// order.
    BadEndiannessSentinel,
    /// The sentinel number of revision B deviated from the known
    /// constant by more than the fixed tolerance.
    BadNumberSentinel,
    /// A constant pool entry carried an unknown tag; carries that tag.
    UnknownConstantTag(u8),
    /// The input ended inside a field.
    UnexpectedEndOfInput,
    /// A decoded length does not fit the host's addressable-size type,
    /// or is negative.
    LengthOverflow,
    /// The prototype tree nests deeper than the codec's fixed guard
    /// against stack exhaustion.
    NestingTooDeep,
    /// Encoding only: a value of the chunk cannot be represented at the
    /// widths its header declares, or at all in its revision.
    NotEncodable,
}

/// Ghost view of a constant pool entry.
pub ghost enum ConstantView {
    Nil,
    Boolean(bool),
    Number(u64),
    Integer(i64),
    String(Seq<u8>),
}

/// Ghost view of a local-variable debug record.
#[verifier::ext_equal]
pub ghost struct LocalVarView {
    pub name: Seq<u8>,
    pub start_pc: i64,
    pub end_pc: i64,
}

/// Ghost view of the debug tables.
#[verifier::ext_equal]
pub ghost struct DebugView {
    pub lineinfo: Seq<i64>,
    pub localvars: Seq<LocalVarView>,
    pub upvalues: Seq<Seq<u8>>,
}

/// Ghost view of a prototype tree node.
#[verifier::ext_equal]
pub ghost struct ProtoView {
    pub source: Option<Seq<u8>>,
    pub line_defined: i64,
    pub last_line_defined: i64,
    pub num_params: u8,
    pub is_vararg: u8,
    pub max_stack_size: u8,
    pub code: Seq<u64>,
    pub constants: Seq<ConstantView>,
    pub upvalues: Seq<Upvalue>,
    pub nups: u8,
    pub protos: Seq<ProtoView>,
    pub debug: DebugView,
}

/// Ghost view of a complete chunk.
#[verifier::ext_equal]
pub ghost struct ChunkView {
    pub header: ChunkHeader,
    pub proto: ProtoView,
}

impl View for Constant {
    type V = ConstantView;

    open spec fn view(&self) -> ConstantView {
        match self {
            Constant::Nil => ConstantView::Nil,
            Constant::Boolean(b) => ConstantView::Boolean(*b),
            Constant::Number(n) => ConstantView::Number(*n),
            Constant::Integer(i) => ConstantView::Integer(*i),
            Constant::String(s) => ConstantView::String(s@),
        }
    }
}

impl View for LuaDebugLocalVar {
    type V = LocalVarView;

    open spec fn view(&self) -> LocalVarView {
        LocalVarView { name: self.name@, start_pc: self.start_pc, end_pc: self.end_pc }
    }
}

/// The view of an optional byte string.
pub open spec fn opt_bytes_view(o: Option<Vec<u8>>) -> Option<Seq<u8>> {
    match o {
        Option::None => Option::None,
        Option::Some(b) => Option::Some(b@),
    }
}

/// The views of a constant pool.
pub open spec fn consts_view(v: Vec<Constant>) -> Seq<ConstantView> {
    Seq::new(v@.len(), |i: int| v@[i]@)
}

/// The views of a local-variable table.
pub open spec fn locvars_view(v: Vec<LuaDebugLocalVar>) -> Seq<LocalVarView> {
    Seq::new(v@.len(), |i: int| v@[i]@)
}

/// The views of a table of byte strings.
pub open spec fn names_view(v: Vec<Vec<u8>>) -> Seq<Seq<u8>> {
    Seq::new(v@.len(), |i: int| v@[i]@)
}

impl View for LuaDebug {
    type V = DebugView;

    open spec fn view(&self) -> DebugView {
        DebugView {
            lineinfo: self.lineinfo@,
            localvars: locvars_view(self.localvars),
            upvalues: names_view(self.upvalues),
        }
    }
}

/// The view of a prototype, as a recursive ghost tree.
pub open spec fn proto_view(p: Prototype) -> ProtoView
    decreases p,
{
    ProtoView {
        source: opt_bytes_view(p.source),
        line_defined: p.line_defined,
        last_line_defined: p.last_line_defined,
        num_params: p.num_params,
        is_vararg: p.is_vararg,
        max_stack_size: p.max_stack_size,
        code: p.code@,
        constants: consts_view(p.constants),
        upvalues: p.upvalues@,
        nups: p.nups,
        protos: Seq::new(
            p.protos@.len(),
            |i: int|
                if 0 <= i < p.protos@.len() {
                    proto_view(p.protos@[i])
                } else {
                    arbitrary()
                },
        ),
        debug: p.debug@,
    }
}

/// The views of a list of prototypes.
pub open spec fn protos_view(v: Vec<Prototype>) -> Seq<ProtoView> {
    Seq::new(v@.len(), |i: int| proto_view(v@[i]))
}

/// The `protos` field of a prototype's view is the view of its child
/// list.
pub proof fn lemma_proto_view_protos(p: Prototype)
    ensures
        proto_view(p).protos == protos_view(p.protos),
{
    assert(proto_view(p).protos =~= protos_view(p.protos));
}

impl View for Prototype {
    type V = ProtoView;

    open spec fn view(&self) -> ProtoView {
        proto_view(*self)
    }
}

impl View for Chunk {
    type V = ChunkView;

    open spec fn view(&self) -> ChunkView {
        ChunkView { header: self.header, proto: proto_view(self.proto) }
    }
}

} // verus!
