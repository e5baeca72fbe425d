//! Unmarshalling of serialized CPython object graphs.
//!
//! The wire format is a stream of tagged, length-prefixed records. Each
//! record may be flagged as referenceable; referenceable records are entered
//! into a reference table as they *begin* parsing, so self-referential
//! containers resolve. The result of a parse is an object region: a flat,
//! append-only pool of objects in which every internal reference is an index
//! into the pool, with the root at index 0.

use vstd::prelude::*;
use vstd::pervasive::VecAdditionalExecFns;

verus! {

/// An error raised while unmarshalling.
#[derive(Debug, Clone, Copy, PartialEq, Eq, Structural)]
pub enum UnmarshalError {
    UnexpectedEof,
    InvalidTag,
    DecodingError,
    ExplicitUnknown,
    FoundNull,
    DanglingRef(usize),
}

/// The type tag of a wire record, i.e. the low seven bits of its first byte.
#[derive(Debug, Clone, Copy, PartialEq, Eq, Structural)]
pub enum PyTypeTag {
    Null,
    NoneType,
    True,
    False,
    StopIter,
    Ellipsis,
    Int,
    Int64,
    Float,
    BinaryFloat,
    Complex,
    BinaryComplex,
    Long,
    String,
    Interned,
    Ref,
    Tuple,
    List,
    Dict,
    Code,
    Unicode,
    Unknown,
    PySet,
    FrozenSet,
    Ascii,
    AsciiInterned,
    SmallTuple,
    ShortAscii,
    ShortAsciiInterned,
}

/// The byte that encodes a tag on the wire.
pub open spec fn tag_byte(t: PyTypeTag) -> u8 {
    match t {
        PyTypeTag::Null => 0x30,
        PyTypeTag::NoneType => 0x4e,
        PyTypeTag::True => 0x54,
        PyTypeTag::False => 0x46,
        PyTypeTag::StopIter => 0x53,
        PyTypeTag::Ellipsis => 0x2e,
        PyTypeTag::Int => 0x69,
        PyTypeTag::Int64 => 0x49,
        PyTypeTag::Float => 0x66,
        PyTypeTag::BinaryFloat => 0x67,
        PyTypeTag::Complex => 0x78,
        PyTypeTag::BinaryComplex => 0x79,
        PyTypeTag::Long => 0x6c,
        PyTypeTag::String => 0x73,
        PyTypeTag::Interned => 0x74,
        PyTypeTag::Ref => 0x72,
        PyTypeTag::Tuple => 0x28,
        PyTypeTag::List => 0x5b,
        PyTypeTag::Dict => 0x7b,
        PyTypeTag::Code => 0x63,
        PyTypeTag::Unicode => 0x75,
        PyTypeTag::Unknown => 0x3f,
        PyTypeTag::PySet => 0x3c,
        PyTypeTag::FrozenSet => 0x3e,
        PyTypeTag::Ascii => 0x61,
        PyTypeTag::AsciiInterned => 0x41,
        PyTypeTag::SmallTuple => 0x29,
        PyTypeTag::ShortAscii => 0x7a,
        PyTypeTag::ShortAsciiInterned => 0x5a,
    }
}

/// The tag encoded by a byte, if any.
pub open spec fn tag_of_byte(b: u8) -> Option<PyTypeTag> {
    if b == 0x30 {
        Some(PyTypeTag::Null)
    } else if b == 0x4e {
        Some(PyTypeTag::NoneType)
    } else if b == 0x54 {
        Some(PyTypeTag::True)
    } else if b == 0x46 {
        Some(PyTypeTag::False)
    } else if b == 0x53 {
        Some(PyTypeTag::StopIter)
    } else if b == 0x2e {
        Some(PyTypeTag::Ellipsis)
    } else if b == 0x69 {
        Some(PyTypeTag::Int)
    } else if b == 0x49 {
        Some(PyTypeTag::Int64)
    } else if b == 0x66 {
        Some(PyTypeTag::Float)
    } else if b == 0x67 {
        Some(PyTypeTag::BinaryFloat)
    } else if b == 0x78 {
        Some(PyTypeTag::Complex)
    } else if b == 0x79 {
        Some(PyTypeTag::BinaryComplex)
    } else if b == 0x6c {
        Some(PyTypeTag::Long)
    } else if b == 0x73 {
        Some(PyTypeTag::String)
    } else if b == 0x74 {
        Some(PyTypeTag::Interned)
    } else if b == 0x72 {
        Some(PyTypeTag::Ref)
    } else if b == 0x28 {
        Some(PyTypeTag::Tuple)
    } else if b == 0x5b {
        Some(PyTypeTag::List)
    } else if b == 0x7b {
        Some(PyTypeTag::Dict)
    } else if b == 0x63 {
        Some(PyTypeTag::Code)
    } else if b == 0x75 {
        Some(PyTypeTag::Unicode)
    } else if b == 0x3f {
        Some(PyTypeTag::Unknown)
    } else if b == 0x3c {
        Some(PyTypeTag::PySet)
    } else if b == 0x3e {
        Some(PyTypeTag::FrozenSet)
    } else if b == 0x61 {
        Some(PyTypeTag::Ascii)
    } else if b == 0x41 {
        Some(PyTypeTag::AsciiInterned)
    } else if b == 0x29 {
        Some(PyTypeTag::SmallTuple)
    } else if b == 0x7a {
        Some(PyTypeTag::ShortAscii)
    } else if b == 0x5a {
        Some(PyTypeTag::ShortAsciiInterned)
    } else {
        Option::None
    }
}

impl PyTypeTag {
    /// The wire byte of this tag.
    pub fn to_byte(&self) -> (b: u8)
        ensures
            b == tag_byte(*self),
    {
        match self {
            PyTypeTag::Null => 0x30,
            PyTypeTag::NoneType => 0x4e,
            PyTypeTag::True => 0x54,
            PyTypeTag::False => 0x46,
            PyTypeTag::StopIter => 0x53,
            PyTypeTag::Ellipsis => 0x2e,
            PyTypeTag::Int => 0x69,
            PyTypeTag::Int64 => 0x49,
            PyTypeTag::Float => 0x66,
            PyTypeTag::BinaryFloat => 0x67,
            PyTypeTag::Complex => 0x78,
            PyTypeTag::BinaryComplex => 0x79,
            PyTypeTag::Long => 0x6c,
            PyTypeTag::String => 0x73,
            PyTypeTag::Interned => 0x74,
            PyTypeTag::Ref => 0x72,
            PyTypeTag::Tuple => 0x28,
            PyTypeTag::List => 0x5b,
            PyTypeTag::Dict => 0x7b,
            PyTypeTag::Code => 0x63,
            PyTypeTag::Unicode => 0x75,
            PyTypeTag::Unknown => 0x3f,
            PyTypeTag::PySet => 0x3c,
            PyTypeTag::FrozenSet => 0x3e,
            PyTypeTag::Ascii => 0x61,
            PyTypeTag::AsciiInterned => 0x41,
            PyTypeTag::SmallTuple => 0x29,
            PyTypeTag::ShortAscii => 0x7a,
            PyTypeTag::ShortAsciiInterned => 0x5a,
        }
    }

    /// The tag encoded by a byte; `InvalidTag` if the byte encodes none.
    pub fn from_byte(b: u8) -> (r: Result<PyTypeTag, UnmarshalError>)
        ensures
            r matches Ok(t) ==> tag_of_byte(b) == Some(t),
            r matches Err(e) ==> tag_of_byte(b) is None && e == UnmarshalError::InvalidTag,
    {
        match b {
            0x30 => Ok(PyTypeTag::Null),
            0x4e => Ok(PyTypeTag::NoneType),
            0x54 => Ok(PyTypeTag::True),
            0x46 => Ok(PyTypeTag::False),
            0x53 => Ok(PyTypeTag::StopIter),
            0x2e => Ok(PyTypeTag::Ellipsis),
            0x69 => Ok(PyTypeTag::Int),
            0x49 => Ok(PyTypeTag::Int64),
            0x66 => Ok(PyTypeTag::Float),
            0x67 => Ok(PyTypeTag::BinaryFloat),
            0x78 => Ok(PyTypeTag::Complex),
            0x79 => Ok(PyTypeTag::BinaryComplex),
            0x6c => Ok(PyTypeTag::Long),
            0x73 => Ok(PyTypeTag::String),
            0x74 => Ok(PyTypeTag::Interned),
            0x72 => Ok(PyTypeTag::Ref),
            0x28 => Ok(PyTypeTag::Tuple),
            0x5b => Ok(PyTypeTag::List),
            0x7b => Ok(PyTypeTag::Dict),
            0x63 => Ok(PyTypeTag::Code),
            0x75 => Ok(PyTypeTag::Unicode),
            0x3f => Ok(PyTypeTag::Unknown),
            0x3c => Ok(PyTypeTag::PySet),
            0x3e => Ok(PyTypeTag::FrozenSet),
            0x61 => Ok(PyTypeTag::Ascii),
            0x41 => Ok(PyTypeTag::AsciiInterned),
            0x29 => Ok(PyTypeTag::SmallTuple),
            0x7a => Ok(PyTypeTag::ShortAscii),
            0x5a => Ok(PyTypeTag::ShortAsciiInterned),
            _ => Err(UnmarshalError::InvalidTag),
        }
    }
}

/// Every tag encodes to a byte that decodes back to the same tag.
pub proof fn lemma_tag_byte_round_trip(t: PyTypeTag)
    ensures
        tag_of_byte(tag_byte(t)) == Some(t),
{
}

/// Every byte that decodes to a tag is the encoding of that tag.
pub proof fn lemma_byte_tag_round_trip(b: u8)
    ensures
        tag_of_byte(b) matches Some(t) ==> tag_byte(t) == b,
{
}


// ---------------------------------------------------------------------------
// The object region
// ---------------------------------------------------------------------------

/// An index into the object region.
#[derive(Debug, Clone, Copy, PartialEq, Eq, Structural)]
pub struct PyObjectIndex(pub usize);

/// The raw constructor record of a code object: five counts, eleven region
/// indices, and the first line number, in wire order (except that
/// `first_line_no` sits between `qualified_name` and `line_table` on the
/// wire).
#[derive(Debug, PartialEq, Eq, Structural, Clone, Copy)]
pub struct CodeObjectConstructor {
    pub arg_count: i32,
    pub pos_only_arg_count: i32,
    pub kw_only_arg_count: i32,
    pub stack_size: i32,
    pub flags: i32,
    pub code: PyObjectIndex,
    pub consts: PyObjectIndex,
    pub names: PyObjectIndex,
    /// Tuple mapping frame slots to names.
    pub locals_plus_names: PyObjectIndex,
    /// Bytes of per-slot kind flags (local, cell, free).
    pub locals_plus_kinds: PyObjectIndex,
    pub filename: PyObjectIndex,
    pub name: PyObjectIndex,
    pub qualified_name: PyObjectIndex,
    pub first_line_no: i32,
    pub line_table: PyObjectIndex,
    pub exception_table: PyObjectIndex,
}

/// An entry of the object region. Every internal reference is a region
/// index; floating-point payloads are carried as their IEEE 754 binary64 bit
/// patterns.
#[derive(Debug, PartialEq)]
pub enum PyObject {
    /// Placeholder while a container is being parsed; never a final value
    /// except where a dict key parse ended at a null terminator mid-stream.
    Null,
    NoneType,
    Bool(bool),
    StopIter,
    Ellipsis,
    SmallInt(i64),
    /// Raw little-endian digit bytes of an arbitrary-precision integer.
    LargeInt(Vec<u8>),
    /// IEEE 754 binary64 bits.
    Float(u64),
    /// IEEE 754 binary64 bits of the real and imaginary parts.
    Complex(u64, u64),
    Bytes(Vec<u8>),
    String(String),
    Tuple(Vec<PyObjectIndex>),
    List(Vec<PyObjectIndex>),
    Dict(Vec<(PyObjectIndex, PyObjectIndex)>),
    PySet(Vec<PyObjectIndex>),
    FrozenSet(Vec<PyObjectIndex>),
    Code(CodeObjectConstructor),
}

/// The mathematical value of a code-constructor record.
pub struct CodeV {
    pub arg_count: int,
    pub pos_only_arg_count: int,
    pub kw_only_arg_count: int,
    pub stack_size: int,
    pub flags: int,
    pub code: int,
    pub consts: int,
    pub names: int,
    pub locals_plus_names: int,
    pub locals_plus_kinds: int,
    pub filename: int,
    pub name: int,
    pub qualified_name: int,
    pub first_line_no: int,
    pub line_table: int,
    pub exception_table: int,
}

/// The mathematical value of a region entry.
#[verifier::ext_equal]
pub enum PyObjV {
    VNull,
    VNone,
    VBool(bool),
    VStopIter,
    VEllipsis,
    VSmallInt(int),
    VLargeInt(Seq<u8>),
    VFloat(u64),
    VComplex(u64, u64),
    VBytes(Seq<u8>),
    VString(Seq<char>),
    VTuple(Seq<int>),
    VList(Seq<int>),
    VDict(Seq<(int, int)>),
    VSet(Seq<int>),
    VFrozenSet(Seq<int>),
    VCode(CodeV),
}

impl View for PyObjectIndex {
    type V = int;

    open spec fn view(&self) -> int {
        self.0 as int
    }
}

impl View for CodeObjectConstructor {
    type V = CodeV;

    open spec fn view(&self) -> CodeV {
        CodeV {
            arg_count: self.arg_count as int,
            pos_only_arg_count: self.pos_only_arg_count as int,
            kw_only_arg_count: self.kw_only_arg_count as int,
            stack_size: self.stack_size as int,
            flags: self.flags as int,
            code: self.code@,
            consts: self.consts@,
            names: self.names@,
            locals_plus_names: self.locals_plus_names@,
            locals_plus_kinds: self.locals_plus_kinds@,
            filename: self.filename@,
            name: self.name@,
            qualified_name: self.qualified_name@,
            first_line_no: self.first_line_no as int,
            line_table: self.line_table@,
            exception_table: self.exception_table@,
        }
    }
}

/// The indices held by a sequence of region indices.
pub open spec fn idxs_view(v: Seq<PyObjectIndex>) -> Seq<int> {
    v.map_values(|i: PyObjectIndex| i@)
}

/// The index pairs held by a sequence of region index pairs.
pub open spec fn pairs_view(v: Seq<(PyObjectIndex, PyObjectIndex)>) -> Seq<(int, int)> {
    v.map_values(|p: (PyObjectIndex, PyObjectIndex)| (p.0@, p.1@))
}

impl View for PyObject {
    type V = PyObjV;

    open spec fn view(&self) -> PyObjV {
        match self {
            PyObject::Null => PyObjV::VNull,
            PyObject::NoneType => PyObjV::VNone,
            PyObject::Bool(b) => PyObjV::VBool(*b),
            PyObject::StopIter => PyObjV::VStopIter,
            PyObject::Ellipsis => PyObjV::VEllipsis,
            PyObject::SmallInt(v) => PyObjV::VSmallInt(*v as int),
            PyObject::LargeInt(d) => PyObjV::VLargeInt(d@),
            PyObject::Float(bits) => PyObjV::VFloat(*bits),
            PyObject::Complex(re, im) => PyObjV::VComplex(*re, *im),
            PyObject::Bytes(b) => PyObjV::VBytes(b@),
            PyObject::String(s) => PyObjV::VString(s@),
            PyObject::Tuple(v) => PyObjV::VTuple(idxs_view(v@)),
            PyObject::List(v) => PyObjV::VList(idxs_view(v@)),
            PyObject::Dict(v) => PyObjV::VDict(pairs_view(v@)),
            PyObject::PySet(v) => PyObjV::VSet(idxs_view(v@)),
            PyObject::FrozenSet(v) => PyObjV::VFrozenSet(idxs_view(v@)),
            PyObject::Code(c) => PyObjV::VCode(c@),
        }
    }
}

/// The object region: the flat pool of objects produced by a parse, with the
/// root at index 0.
#[derive(Debug, PartialEq)]
pub struct PyObjectRegion(pub Vec<PyObject>);

impl View for PyObjectRegion {
    type V = Seq<PyObjV>;

    open spec fn view(&self) -> Seq<PyObjV> {
        self.0@.map_values(|o: PyObject| o@)
    }
}

impl PyObjectRegion {
    /// The number of objects in the region.
    pub fn len(&self) -> (n: usize)
        ensures
            n == self@.len(),
    {
        self.0.len()
    }

    /// The object at a region index.
    pub fn get(&self, index: usize) -> (o: &PyObject)
        requires
            index < self@.len(),
        ensures
            o@ == self@[index as int],
    {
        &self.0[index]
    }
}

// ---------------------------------------------------------------------------
// Little-endian integers
// ---------------------------------------------------------------------------

/// The value of four little-endian bytes starting at `pos`.
pub open spec fn le_u32_at(input: Seq<u8>, pos: int) -> int {
    input[pos] + 0x100 * input[pos + 1] + 0x1_0000 * input[pos + 2] + 0x100_0000 * input[pos + 3]
}

/// The value of eight little-endian bytes starting at `pos`.
pub open spec fn le_u64_at(input: Seq<u8>, pos: int) -> int {
    le_u32_at(input, pos) + 0x1_0000_0000 * le_u32_at(input, pos + 4)
}

/// Reinterprets an unsigned 32-bit value as two's complement.
pub open spec fn signed32(v: int) -> int {
    if v >= 0x8000_0000 {
        v - 0x1_0000_0000
    } else {
        v
    }
}

/// Reinterprets an unsigned 64-bit value as two's complement.
pub open spec fn signed64(v: int) -> int {
    if v >= 0x8000_0000_0000_0000 {
        v - 0x1_0000_0000_0000_0000
    } else {
        v
    }
}


// ---------------------------------------------------------------------------
// Trusted decoding primitives
// ---------------------------------------------------------------------------

/// The bit pattern of the binary64 value denoted by a decimal
/// floating-point literal, or nothing where the text is not such a literal.
pub uninterp spec fn float_bits_of(s: Seq<char>) -> Option<u64>;

/// Relies on `str::from_utf8`: it succeeds exactly on valid UTF-8 input and
/// yields the decoded characters.
#[verifier::external_body]
fn utf8_to_string(bytes: &[u8]) -> (r: Option<String>)
    ensures
        r is Some <==> vstd::utf8::valid_utf8(bytes@),
        r matches Some(s) ==> s@ == vstd::utf8::decode_utf8(bytes@),
{
    match core::str::from_utf8(bytes) {
        Ok(s) => Some(s.to_owned()),
        Err(_) => Option::None,
    }
}

/// Relies on `rustc_apfloat::ieee::Double::from_str` (round to nearest,
/// ties to even) and `Float::to_bits`: the parsed value is a function of
/// the characters alone, and its binary64 bit pattern is returned.
#[verifier::external_body]
fn parse_float_bits(s: &str) -> (r: Option<u64>)
    ensures
        r == float_bits_of(s@),
{
    match s.parse::<rustc_apfloat::ieee::Double>() {
        Ok(f) => Some(rustc_apfloat::Float::to_bits(f) as u64),
        Err(_) => Option::None,
    }
}

// ---------------------------------------------------------------------------
// The parse model
// ---------------------------------------------------------------------------

/// The state of a parse: the cursor into the input, the objects of the
/// region so far, and the reference table (region indices of the
/// referenceable objects, in the order their parses began).
#[verifier::ext_equal]
pub struct UState {
    pub pos: int,
    pub objects: Seq<PyObjV>,
    pub refables: Seq<int>,
}

/// The outcome of parsing one object: the region index of the parsed object
/// and the state after it, or an error and the state at the failure.
#[verifier::ext_equal]
pub enum UStep {
    Done { idx: int, st: UState },
    Fail { err: UnmarshalError, st: UState },
}

/// The outcome of parsing a counted run of objects.
#[verifier::ext_equal]
pub enum ItemsStep {
    Done { idxs: Seq<int>, st: UState },
    Fail { err: UnmarshalError, st: UState },
}

/// The outcome of parsing the key/value stream of a dict.
#[verifier::ext_equal]
pub enum PairsStep {
    Done { pairs: Seq<(int, int)>, st: UState },
    Fail { err: UnmarshalError, st: UState },
}

/// The outcome of reading a length-prefixed byte string.
#[verifier::ext_equal]
pub enum BytesStep {
    Got { bytes: Seq<u8>, pos: int },
    Fail { err: UnmarshalError, pos: int },
}

/// Reads a one-byte length followed by that many bytes.
pub open spec fn s_short_str(input: Seq<u8>, pos: int) -> BytesStep {
    if pos >= input.len() {
        BytesStep::Fail { err: UnmarshalError::UnexpectedEof, pos }
    } else {
        let n = input[pos] as int;
        if pos + 1 + n <= input.len() {
            BytesStep::Got { bytes: input.subrange(pos + 1, pos + 1 + n), pos: pos + 1 + n }
        } else {
            BytesStep::Fail { err: UnmarshalError::UnexpectedEof, pos: pos + 1 }
        }
    }
}

/// Reads a four-byte little-endian signed length followed by that many
/// bytes. A negative length is a decoding error.
pub open spec fn s_long_str(input: Seq<u8>, pos: int) -> BytesStep {
    if pos + 4 > input.len() {
        BytesStep::Fail { err: UnmarshalError::UnexpectedEof, pos }
    } else {
        let n = signed32(le_u32_at(input, pos));
        if n < 0 {
            BytesStep::Fail { err: UnmarshalError::DecodingError, pos: pos + 4 }
        } else if pos + 4 + n <= input.len() {
            BytesStep::Got { bytes: input.subrange(pos + 4, pos + 4 + n), pos: pos + 4 + n }
        } else {
            BytesStep::Fail { err: UnmarshalError::UnexpectedEof, pos: pos + 4 }
        }
    }
}

/// Appends a finished object to the region, recording it in the reference
/// table when the refable flag was set.
pub open spec fn s_finish(v: PyObjV, flag: bool, pos: int, st: UState) -> UStep {
    let idx = st.objects.len() as int;
    UStep::Done {
        idx,
        st: UState {
            pos,
            objects: st.objects.push(v),
            refables: if flag {
                st.refables.push(idx)
            } else {
                st.refables
            },
        },
    }
}

/// Reserves a region slot for a container before its children are parsed,
/// recording it in the reference table when the refable flag was set.
pub open spec fn s_alloc(flag: bool, pos: int, st: UState) -> UState {
    let idx = st.objects.len() as int;
    UState {
        pos,
        objects: st.objects.push(PyObjV::VNull),
        refables: if flag {
            st.refables.push(idx)
        } else {
            st.refables
        },
    }
}

/// Inserts a value into an ascending duplicate-free sequence, keeping it
/// ascending and duplicate-free.
pub open spec fn sorted_insert(s: Seq<int>, x: int) -> Seq<int>
    decreases s.len(),
{
    if s.len() == 0 {
        seq![x]
    } else if x < s[0] {
        seq![x] + s
    } else if x == s[0] {
        s
    } else {
        seq![s[0]] + sorted_insert(s.subrange(1, s.len() as int), x)
    }
}

/// The ascending duplicate-free sequence holding exactly the values of `s`.
pub open spec fn sort_dedup(s: Seq<int>) -> Seq<int>
    decreases s.len(),
{
    if s.len() == 0 {
        Seq::empty()
    } else {
        sorted_insert(sort_dedup(s.drop_last()), s.last())
    }
}

/// An ascending sequence without duplicates.
pub open spec fn sorted_unique(s: Seq<int>) -> bool {
    forall|i: int, j: int| 0 <= i < j < s.len() ==> s[i] < s[j]
}

/// `sorted_insert` keeps a sequence ascending and duplicate-free, and its
/// contents are the old contents plus the inserted value.
pub proof fn lemma_sorted_insert_props(s: Seq<int>, x: int)
    requires
        sorted_unique(s),
    ensures
        sorted_unique(sorted_insert(s, x)),
        sorted_insert(s, x).contains(x),
        forall|y: int| sorted_insert(s, x).contains(y) <==> (s.contains(y) || y == x),
    decreases s.len(),
{
    let r = sorted_insert(s, x);
    if s.len() == 0 || x <= s[0] {
        assert(r[0] == x);
    }
    if s.len() == 0 {
        assert forall|y: int| r.contains(y) <==> (s.contains(y) || y == x) by {
            if y == x {
                assert(r[0] == x);
            }
        }
    } else if x < s[0] {
        assert(r =~= seq![x] + s);
        assert forall|i: int, j: int| 0 <= i < j < r.len() implies r[i] < r[j] by {
            if i == 0 {
                assert(r[0] == x);
                assert(r[j] == s[j - 1]);
                if j > 1 {
                    assert(s[0] < s[j - 1]);
                }
            } else {
                assert(r[i] == s[i - 1] && r[j] == s[j - 1]);
            }
        }
        assert forall|y: int| r.contains(y) <==> (s.contains(y) || y == x) by {
            if r.contains(y) {
                let i = choose|i: int| 0 <= i < r.len() && r[i] == y;
                if i == 0 {
                } else {
                    assert(s[i - 1] == y);
                }
            }
            if s.contains(y) {
                let i = choose|i: int| 0 <= i < s.len() && s[i] == y;
                assert(r[i + 1] == y);
            }
            if y == x {
                assert(r[0] == y);
            }
        }
    } else if x == s[0] {
        assert forall|y: int| r.contains(y) <==> (s.contains(y) || y == x) by {
            if y == x {
                assert(s[0] == y);
            }
        }
    } else {
        let tail = s.subrange(1, s.len() as int);
        assert(sorted_unique(tail));
        lemma_sorted_insert_props(tail, x);
        let rt = sorted_insert(tail, x);
        assert(r =~= seq![s[0]] + rt);
        assert(r.contains(x)) by {
            let m = choose|m: int| 0 <= m < rt.len() && rt[m] == x;
            assert(r[m + 1] == x);
        }
        assert forall|y: int| rt.contains(y) implies y > s[0] by {
            if tail.contains(y) {
                let i = choose|i: int| 0 <= i < tail.len() && tail[i] == y;
                assert(s[i + 1] == y);
            }
        }
        assert forall|i: int, j: int| 0 <= i < j < r.len() implies r[i] < r[j] by {
            if i == 0 {
                assert(r[j] == rt[j - 1]);
                assert(rt.contains(rt[j - 1]));
            } else {
                assert(r[i] == rt[i - 1] && r[j] == rt[j - 1]);
            }
        }
        assert forall|y: int| r.contains(y) <==> (s.contains(y) || y == x) by {
            if r.contains(y) {
                let i = choose|i: int| 0 <= i < r.len() && r[i] == y;
                if i == 0 {
                    assert(s[0] == y);
                } else {
                    assert(rt[i - 1] == y);
                    assert(rt.contains(y));
                    if tail.contains(y) {
                        let m = choose|m: int| 0 <= m < tail.len() && tail[m] == y;
                        assert(s[m + 1] == y);
                    }
                }
            }
            if s.contains(y) {
                let i = choose|i: int| 0 <= i < s.len() && s[i] == y;
                if i == 0 {
                    assert(r[0] == y);
                } else {
                    assert(tail[i - 1] == y);
                    assert(tail.contains(y)) by {
                        assert(tail[i - 1] == y);
                    }
                    assert(rt.contains(y));
                    let m = choose|m: int| 0 <= m < rt.len() && rt[m] == y;
                    assert(r[m + 1] == y);
                }
            }
            if y == x {
                assert(r.contains(y));
            }
        }
    }
}

/// The container value a sequence-like tag builds from its children.
pub open spec fn seq_like_value(t: PyTypeTag, idxs: Seq<int>) -> PyObjV {
    match t {
        PyTypeTag::List => PyObjV::VList(idxs),
        PyTypeTag::PySet => PyObjV::VSet(sort_dedup(idxs)),
        PyTypeTag::FrozenSet => PyObjV::VFrozenSet(sort_dedup(idxs)),
        _ => PyObjV::VTuple(idxs),
    }
}

/// Parses one object starting at `st.pos`.
pub open spec fn s_parse_obj(input: Seq<u8>, st: UState) -> UStep
    decreases input.len() - st.pos, 1int, 0int,
{
    if st.pos >= input.len() {
        UStep::Fail { err: UnmarshalError::UnexpectedEof, st }
    } else {
        let tag = input[st.pos];
        let flag = (tag & 0x80) != 0;
        let low = tag & 0x7f;
        let p = st.pos + 1;
        let st1 = UState { pos: p, ..st };
        match tag_of_byte(low) {
            Option::None => UStep::Fail { err: UnmarshalError::InvalidTag, st: st1 },
            Some(t) => match t {
                PyTypeTag::Null => UStep::Fail { err: UnmarshalError::FoundNull, st: st1 },
                PyTypeTag::NoneType => s_finish(PyObjV::VNone, flag, p, st),
                PyTypeTag::True => s_finish(PyObjV::VBool(true), flag, p, st),
                PyTypeTag::False => s_finish(PyObjV::VBool(false), flag, p, st),
                PyTypeTag::StopIter => s_finish(PyObjV::VStopIter, flag, p, st),
                PyTypeTag::Ellipsis => s_finish(PyObjV::VEllipsis, flag, p, st),
                PyTypeTag::Unknown => UStep::Fail { err: UnmarshalError::ExplicitUnknown, st: st1 },
                PyTypeTag::Int => if p + 4 <= input.len() {
                    s_finish(PyObjV::VSmallInt(signed32(le_u32_at(input, p))), flag, p + 4, st)
                } else {
                    UStep::Fail { err: UnmarshalError::UnexpectedEof, st: st1 }
                },
                PyTypeTag::Int64 => if p + 8 <= input.len() {
                    s_finish(PyObjV::VSmallInt(signed64(le_u64_at(input, p))), flag, p + 8, st)
                } else {
                    UStep::Fail { err: UnmarshalError::UnexpectedEof, st: st1 }
                },
                PyTypeTag::BinaryFloat => if p + 8 <= input.len() {
                    s_finish(PyObjV::VFloat(le_u64_at(input, p) as u64), flag, p + 8, st)
                } else {
                    UStep::Fail { err: UnmarshalError::UnexpectedEof, st: st1 }
                },
                PyTypeTag::BinaryComplex => if p + 16 <= input.len() {
                    s_finish(
                        PyObjV::VComplex(le_u64_at(input, p) as u64, le_u64_at(input, p + 8) as u64),
                        flag,
                        p + 16,
                        st,
                    )
                } else {
                    UStep::Fail { err: UnmarshalError::UnexpectedEof, st: st1 }
                },
                PyTypeTag::Float => match s_short_str(input, p) {
                    BytesStep::Fail { err, pos } => UStep::Fail { err, st: UState { pos, ..st } },
                    BytesStep::Got { bytes, pos } => {
                        let st2 = UState { pos, ..st };
                        if !vstd::utf8::valid_utf8(bytes) {
                            UStep::Fail { err: UnmarshalError::DecodingError, st: st2 }
                        } else {
                            match float_bits_of(vstd::utf8::decode_utf8(bytes)) {
                                Option::None => UStep::Fail {
                                    err: UnmarshalError::DecodingError,
                                    st: st2,
                                },
                                Some(bits) => s_finish(PyObjV::VFloat(bits), flag, pos, st),
                            }
                        }
                    },
                },
                PyTypeTag::Complex => match s_short_str(input, p) {
                    BytesStep::Fail { err, pos } => UStep::Fail { err, st: UState { pos, ..st } },
                    BytesStep::Got { bytes: b1, pos: p1 } => if !vstd::utf8::valid_utf8(b1) {
                        UStep::Fail { err: UnmarshalError::DecodingError, st: UState { pos: p1, ..st } }
                    } else {
                        let f1 = float_bits_of(vstd::utf8::decode_utf8(b1));
                        match s_short_str(input, p1) {
                            BytesStep::Fail { err, pos } => UStep::Fail {
                                err,
                                st: UState { pos, ..st },
                            },
                            BytesStep::Got { bytes: b2, pos: p2 } => {
                                let st2 = UState { pos: p2, ..st };
                                if !vstd::utf8::valid_utf8(b2) {
                                    UStep::Fail { err: UnmarshalError::DecodingError, st: st2 }
                                } else {
                                    let f2 = float_bits_of(vstd::utf8::decode_utf8(b2));
                                    if f1 is Some && f2 is Some {
                                        s_finish(
                                            PyObjV::VComplex(f1->0, f2->0),
                                            flag,
                                            p2,
                                            st,
                                        )
                                    } else {
                                        UStep::Fail { err: UnmarshalError::DecodingError, st: st2 }
                                    }
                                }
                            },
                        }
                    },
                },
                PyTypeTag::Long => match s_long_str(input, p) {
                    BytesStep::Fail { err, pos } => UStep::Fail { err, st: UState { pos, ..st } },
                    BytesStep::Got { bytes, pos } => s_finish(PyObjV::VLargeInt(bytes), flag, pos, st),
                },
                PyTypeTag::String => match s_long_str(input, p) {
                    BytesStep::Fail { err, pos } => UStep::Fail { err, st: UState { pos, ..st } },
                    BytesStep::Got { bytes, pos } => s_finish(PyObjV::VBytes(bytes), flag, pos, st),
                },
                PyTypeTag::Interned | PyTypeTag::Unicode | PyTypeTag::Ascii
                    | PyTypeTag::AsciiInterned => match s_long_str(input, p) {
                    BytesStep::Fail { err, pos } => UStep::Fail { err, st: UState { pos, ..st } },
                    BytesStep::Got { bytes, pos } => if vstd::utf8::valid_utf8(bytes) {
                        s_finish(PyObjV::VString(vstd::utf8::decode_utf8(bytes)), flag, pos, st)
                    } else {
                        UStep::Fail { err: UnmarshalError::DecodingError, st: UState { pos, ..st } }
                    },
                },
                PyTypeTag::ShortAscii | PyTypeTag::ShortAsciiInterned => match s_short_str(
                    input,
                    p,
                ) {
                    BytesStep::Fail { err, pos } => UStep::Fail { err, st: UState { pos, ..st } },
                    BytesStep::Got { bytes, pos } => if vstd::utf8::valid_utf8(bytes) {
                        s_finish(PyObjV::VString(vstd::utf8::decode_utf8(bytes)), flag, pos, st)
                    } else {
                        UStep::Fail { err: UnmarshalError::DecodingError, st: UState { pos, ..st } }
                    },
                },
                PyTypeTag::Ref => if p + 4 <= input.len() {
                    let n = le_u32_at(input, p);
                    let st2 = UState { pos: p + 4, ..st };
                    if n < st.refables.len() {
                        UStep::Done { idx: st.refables[n], st: st2 }
                    } else {
                        UStep::Fail { err: UnmarshalError::DanglingRef(n as usize), st: st2 }
                    }
                } else {
                    UStep::Fail { err: UnmarshalError::UnexpectedEof, st: st1 }
                },
                PyTypeTag::Tuple | PyTypeTag::List | PyTypeTag::PySet
                    | PyTypeTag::FrozenSet => {
                    let idx = st.objects.len() as int;
                    let st2 = s_alloc(flag, p, st);
                    if p + 4 > input.len() {
                        UStep::Fail { err: UnmarshalError::UnexpectedEof, st: st2 }
                    } else {
                        let n = signed32(le_u32_at(input, p));
                        let st3 = UState { pos: p + 4, ..st2 };
                        if n < 0 {
                            UStep::Fail { err: UnmarshalError::DecodingError, st: st3 }
                        } else {
                            match s_parse_items(input, st3, n) {
                                ItemsStep::Fail { err, st: st4 } => UStep::Fail { err, st: st4 },
                                ItemsStep::Done { idxs, st: st4 } => UStep::Done {
                                    idx,
                                    st: UState {
                                        objects: st4.objects.update(idx, seq_like_value(t, idxs)),
                                        ..st4
                                    },
                                },
                            }
                        }
                    }
                },
                PyTypeTag::SmallTuple => if p >= input.len() {
                    UStep::Fail { err: UnmarshalError::UnexpectedEof, st: st1 }
                } else {
                    let n = input[p] as int;
                    let idx = st.objects.len() as int;
                    let st2 = s_alloc(flag, p + 1, st);
                    match s_parse_items(input, st2, n) {
                        ItemsStep::Fail { err, st: st3 } => UStep::Fail { err, st: st3 },
                        ItemsStep::Done { idxs, st: st3 } => UStep::Done {
                            idx,
                            st: UState {
                                objects: st3.objects.update(idx, PyObjV::VTuple(idxs)),
                                ..st3
                            },
                        },
                    }
                },
                PyTypeTag::Dict => {
                    let idx = st.objects.len() as int;
                    let st2 = s_alloc(flag, p, st);
                    match s_parse_dict_items(input, st2) {
                        PairsStep::Fail { err, st: st3 } => UStep::Fail { err, st: st3 },
                        PairsStep::Done { pairs, st: st3 } => UStep::Done {
                            idx,
                            st: UState {
                                objects: st3.objects.update(idx, PyObjV::VDict(pairs)),
                                ..st3
                            },
                        },
                    }
                },
                PyTypeTag::Code => {
                    let idx = st.objects.len() as int;
                    let st2 = s_alloc(flag, p, st);
                    if p + 20 > input.len() {
                        UStep::Fail { err: UnmarshalError::UnexpectedEof, st: st2 }
                    } else {
                        let st3 = UState { pos: p + 20, ..st2 };
                        match s_parse_items(input, st3, 8) {
                            ItemsStep::Fail { err, st: st4 } => UStep::Fail { err, st: st4 },
                            ItemsStep::Done { idxs, st: st4 } => if !(st3.pos
                                <= st4.pos <= input.len()) {
                                // a run of object parses never moves the cursor backwards
                                UStep::Fail { err: UnmarshalError::UnexpectedEof, st: st4 }
                            } else if st4.pos + 4 > input.len() {
                                UStep::Fail { err: UnmarshalError::UnexpectedEof, st: st4 }
                            } else {
                                let st5 = UState { pos: st4.pos + 4, ..st4 };
                                match s_parse_items(input, st5, 2) {
                                    ItemsStep::Fail { err, st: st6 } => UStep::Fail { err, st: st6 },
                                    ItemsStep::Done { idxs: idxs2, st: st6 } => UStep::Done {
                                        idx,
                                        st: UState {
                                            objects: st6.objects.update(
                                                idx,
                                                PyObjV::VCode(
                                                    CodeV {
                                                        arg_count: signed32(le_u32_at(input, p)),
                                                        pos_only_arg_count: signed32(
                                                            le_u32_at(input, p + 4),
                                                        ),
                                                        kw_only_arg_count: signed32(
                                                            le_u32_at(input, p + 8),
                                                        ),
                                                        stack_size: signed32(le_u32_at(input, p + 12)),
                                                        flags: signed32(le_u32_at(input, p + 16)),
                                                        code: idxs[0],
                                                        consts: idxs[1],
                                                        names: idxs[2],
                                                        locals_plus_names: idxs[3],
                                                        locals_plus_kinds: idxs[4],
                                                        filename: idxs[5],
                                                        name: idxs[6],
                                                        qualified_name: idxs[7],
                                                        first_line_no: signed32(
                                                            le_u32_at(input, st4.pos),
                                                        ),
                                                        line_table: idxs2[0],
                                                        exception_table: idxs2[1],
                                                    },
                                                ),
                                            ),
                                            ..st6
                                        },
                                    },
                                }
                            },
                        }
                    }
                },
            },
        }
    }
}

/// Parses `n` consecutive objects, yielding their region indices in order.
pub open spec fn s_parse_items(input: Seq<u8>, st: UState, n: int) -> ItemsStep
    decreases input.len() - st.pos, 2int, n,
{
    if n <= 0 {
        ItemsStep::Done { idxs: Seq::empty(), st }
    } else {
        match s_parse_obj(input, st) {
            UStep::Fail { err, st: st2 } => ItemsStep::Fail { err, st: st2 },
            UStep::Done { idx, st: st2 } => if st.pos < st2.pos <= input.len() {
                match s_parse_items(input, st2, n - 1) {
                    ItemsStep::Fail { err, st: st3 } => ItemsStep::Fail { err, st: st3 },
                    ItemsStep::Done { idxs, st: st3 } => ItemsStep::Done {
                        idxs: seq![idx] + idxs,
                        st: st3,
                    },
                }
            } else {
                // a successful object parse always advances the cursor
                ItemsStep::Fail { err: UnmarshalError::UnexpectedEof, st: st2 }
            },
        }
    }
}

/// Parses key/value pairs until a key read attempt fails with `FoundNull`,
/// which terminates the stream.
pub open spec fn s_parse_dict_items(input: Seq<u8>, st: UState) -> PairsStep
    decreases input.len() - st.pos, 2int, 0int,
{
    match s_parse_obj(input, st) {
        UStep::Fail { err, st: st2 } => if err == UnmarshalError::FoundNull {
            PairsStep::Done { pairs: Seq::empty(), st: st2 }
        } else {
            PairsStep::Fail { err, st: st2 }
        },
        UStep::Done { idx: k, st: st2 } => if !(st.pos <= st2.pos <= input.len()) {
            // a successful object parse never moves the cursor backwards
            PairsStep::Fail { err: UnmarshalError::UnexpectedEof, st: st2 }
        } else {
            match s_parse_obj(input, st2) {
            UStep::Fail { err, st: st3 } => PairsStep::Fail { err, st: st3 },
            UStep::Done { idx: v, st: st3 } => if st.pos < st3.pos <= input.len() {
                match s_parse_dict_items(input, st3) {
                    PairsStep::Fail { err, st: st4 } => PairsStep::Fail { err, st: st4 },
                    PairsStep::Done { pairs, st: st4 } => PairsStep::Done {
                        pairs: seq![(k, v)] + pairs,
                        st: st4,
                    },
                }
            } else {
                // a successful object parse always advances the cursor
                PairsStep::Fail { err: UnmarshalError::UnexpectedEof, st: st3 }
            },
            }
        },
    }
}

/// The region denoted by a whole input, or the error its parse raises.
pub open spec fn s_loads(input: Seq<u8>) -> Result<Seq<PyObjV>, UnmarshalError> {
    let st0 = UState { pos: 0, objects: Seq::empty(), refables: Seq::empty() };
    match s_parse_obj(input, st0) {
        UStep::Fail { err, st } => Err(err),
        UStep::Done { idx, st } => Ok(st.objects),
    }
}


// ---------------------------------------------------------------------------
// The parser
// ---------------------------------------------------------------------------

/// The unmarshaller's working state: a cursor into the input, the region
/// under construction, and the reference table.
#[derive(Debug)]
pub struct Unmarshaller {
    pos: usize,
    objects: Vec<PyObject>,
    refables: Vec<usize>,
}

impl View for Unmarshaller {
    type V = UState;

    closed spec fn view(&self) -> UState {
        UState {
            pos: self.pos as int,
            objects: self.objects@.map_values(|o: PyObject| o@),
            refables: self.refables@.map_values(|r: usize| r as int),
        }
    }
}

impl Unmarshaller {
    /// Reads four little-endian bytes as an unsigned value.
    fn read_u32(&mut self, input: &[u8]) -> (v: u32)
        requires
            old(self)@.pos + 4 <= input@.len(),
        ensures
            v as int == le_u32_at(input@, old(self)@.pos),
            final(self)@ == (UState { pos: old(self)@.pos + 4, ..old(self)@ }),
    {
        let b0 = input[self.pos] as u32;
        let b1 = input[self.pos + 1] as u32;
        let b2 = input[self.pos + 2] as u32;
        let b3 = input[self.pos + 3] as u32;
        self.pos = self.pos + 4;
        b0 + 0x100 * b1 + 0x1_0000 * b2 + 0x100_0000 * b3
    }

    /// Reads eight little-endian bytes as an unsigned value.
    fn read_u64(&mut self, input: &[u8]) -> (v: u64)
        requires
            old(self)@.pos + 8 <= input@.len(),
        ensures
            v as int == le_u64_at(input@, old(self)@.pos),
            final(self)@ == (UState { pos: old(self)@.pos + 8, ..old(self)@ }),
    {
        let lo = self.read_u32(input) as u64;
        let hi = self.read_u32(input) as u64;
        lo + 0x1_0000_0000 * hi
    }

    /// Reads four little-endian bytes as a two's complement value.
    fn read_i32_64(&mut self, input: &[u8]) -> (v: i64)
        requires
            old(self)@.pos + 4 <= input@.len(),
        ensures
            v as int == signed32(le_u32_at(input@, old(self)@.pos)),
            final(self)@ == (UState { pos: old(self)@.pos + 4, ..old(self)@ }),
    {
        let u = self.read_u32(input) as i64;
        if u >= 0x8000_0000 {
            u - 0x1_0000_0000
        } else {
            u
        }
    }

    /// Reads four little-endian bytes as a signed 32-bit value.
    fn read_i32(&mut self, input: &[u8]) -> (v: i32)
        requires
            old(self)@.pos + 4 <= input@.len(),
        ensures
            v as int == signed32(le_u32_at(input@, old(self)@.pos)),
            final(self)@ == (UState { pos: old(self)@.pos + 4, ..old(self)@ }),
    {
        let v = self.read_i32_64(input);
        v as i32
    }

    /// Reads eight little-endian bytes as a two's complement value.
    fn read_i64(&mut self, input: &[u8]) -> (v: i64)
        requires
            old(self)@.pos + 8 <= input@.len(),
        ensures
            v as int == signed64(le_u64_at(input@, old(self)@.pos)),
            final(self)@ == (UState { pos: old(self)@.pos + 8, ..old(self)@ }),
    {
        let u = self.read_u64(input);
        if u >= 0x8000_0000_0000_0000 {
            let w = u - 0x8000_0000_0000_0000;
            (w as i64) + i64::MIN
        } else {
            u as i64
        }
    }

    /// Reads a one-byte length followed by that many bytes.
    fn get_short_str(&mut self, input: &[u8]) -> (r: Result<Vec<u8>, UnmarshalError>)
        requires
            old(self)@.pos <= input@.len(),
        ensures
            final(self)@.objects == old(self)@.objects,
            final(self)@.refables == old(self)@.refables,
            old(self)@.pos <= final(self)@.pos <= input@.len(),
            match r {
                Ok(v) => s_short_str(input@, old(self)@.pos) == (BytesStep::Got {
                    bytes: v@,
                    pos: final(self)@.pos,
                }),
                Err(e) => s_short_str(input@, old(self)@.pos) == (BytesStep::Fail {
                    err: e,
                    pos: final(self)@.pos,
                }),
            },
    {
        if self.pos >= input.len() {
            return Err(UnmarshalError::UnexpectedEof);
        }
        let n = input[self.pos] as usize;
        self.pos = self.pos + 1;
        if n > input.len() - self.pos {
            return Err(UnmarshalError::UnexpectedEof);
        }
        let part = vstd::slice::slice_subrange(input, self.pos, self.pos + n);
        let v = vstd::slice::slice_to_vec(part);
        self.pos = self.pos + n;
        Ok(v)
    }

    /// Reads a four-byte little-endian signed length followed by that many
    /// bytes.
    fn get_long_str(&mut self, input: &[u8]) -> (r: Result<Vec<u8>, UnmarshalError>)
        requires
            old(self)@.pos <= input@.len(),
        ensures
            final(self)@.objects == old(self)@.objects,
            final(self)@.refables == old(self)@.refables,
            old(self)@.pos <= final(self)@.pos <= input@.len(),
            match r {
                Ok(v) => s_long_str(input@, old(self)@.pos) == (BytesStep::Got {
                    bytes: v@,
                    pos: final(self)@.pos,
                }),
                Err(e) => s_long_str(input@, old(self)@.pos) == (BytesStep::Fail {
                    err: e,
                    pos: final(self)@.pos,
                }),
            },
    {
        if input.len() - self.pos < 4 {
            return Err(UnmarshalError::UnexpectedEof);
        }
        let n64 = self.read_i32_64(input);
        if n64 < 0 {
            return Err(UnmarshalError::DecodingError);
        }
        let n = n64 as usize;
        if n > input.len() - self.pos {
            return Err(UnmarshalError::UnexpectedEof);
        }
        let part = vstd::slice::slice_subrange(input, self.pos, self.pos + n);
        let v = vstd::slice::slice_to_vec(part);
        self.pos = self.pos + n;
        Ok(v)
    }

    /// Appends a finished object to the region, recording it in the
    /// reference table when the refable flag was set.
    fn finish(&mut self, obj: PyObject, flag: bool) -> (i: PyObjectIndex)
        ensures
            s_finish(obj@, flag, old(self)@.pos, old(self)@) == (UStep::Done {
                idx: i@,
                st: final(self)@,
            }),
    {
        let idx = self.objects.len();
        self.objects.push(obj);
        if flag {
            self.refables.push(idx);
        }
        proof {
            assert(self@.objects =~= old(self)@.objects.push(obj@));
            if flag {
                assert(self@.refables =~= old(self)@.refables.push(idx as int));
            }
        }
        PyObjectIndex(idx)
    }

    /// Reserves a region slot for a container, recording it in the
    /// reference table when the refable flag was set.
    fn reserve_slot(&mut self, flag: bool) -> (i: PyObjectIndex)
        ensures
            final(self)@ == s_alloc(flag, old(self)@.pos, old(self)@),
            i@ == old(self)@.objects.len(),
            final(self)@.objects.len() == old(self)@.objects.len() + 1,
    {
        let idx = self.objects.len();
        self.objects.push(PyObject::Null);
        if flag {
            self.refables.push(idx);
        }
        proof {
            assert(self@.objects =~= old(self)@.objects.push(PyObjV::VNull));
            if flag {
                assert(self@.refables =~= old(self)@.refables.push(idx as int));
            }
        }
        PyObjectIndex(idx)
    }

    /// Overwrites a reserved region slot with its finished container.
    fn set_obj(&mut self, i: PyObjectIndex, obj: PyObject)
        requires
            i@ < old(self)@.objects.len(),
        ensures
            final(self)@ == (UState {
                objects: old(self)@.objects.update(i@, obj@),
                ..old(self)@
            }),
    {
        self.objects.set(i.0, obj);
        proof {
            assert(self@.objects =~= old(self)@.objects.update(i@, obj@));
        }
    }
}

// ---------------------------------------------------------------------------
// Set deduplication
// ---------------------------------------------------------------------------

/// `sorted_insert` splits at the first position whose element is not below
/// the inserted value.
pub proof fn lemma_sorted_insert_at(s: Seq<int>, x: int, i: int)
    requires
        0 <= i <= s.len(),
        forall|k: int| 0 <= k < i ==> s[k] < x,
        i < s.len() ==> s[i] >= x,
    ensures
        sorted_insert(s, x) == if i < s.len() && s[i] == x {
            s
        } else {
            s.subrange(0, i) + seq![x] + s.subrange(i, s.len() as int)
        },
    decreases i,
{
    if i == 0 {
        if s.len() == 0 {
            assert(sorted_insert(s, x) =~= s.subrange(0, 0) + seq![x] + s.subrange(0, 0));
        } else if s[0] == x {
        } else {
            assert(s[0] >= x);
            assert(sorted_insert(s, x) =~= s.subrange(0, 0) + seq![x] + s.subrange(0, s.len() as int));
        }
    } else {
        assert(s[0] < x);
        let tail = s.subrange(1, s.len() as int);
        lemma_sorted_insert_at(tail, x, i - 1);
        if i < s.len() && s[i] == x {
            assert(tail[i - 1] == x);
            assert(sorted_insert(s, x) =~= s);
        } else {
            assert(sorted_insert(s, x) =~= s.subrange(0, i) + seq![x] + s.subrange(i, s.len() as int));
        }
    }
}

/// Inserts a region index into an ascending duplicate-free vector of
/// indices, keeping it ascending and duplicate-free.
fn sorted_insert_vec(out: &mut Vec<PyObjectIndex>, x: PyObjectIndex)
    ensures
        idxs_view(final(out)@) == sorted_insert(idxs_view(old(out)@), x@),
{
    let ghost s = idxs_view(out@);
    let mut i: usize = 0;
    while i < out.len() && out[i].0 < x.0
        invariant
            0 <= i <= out@.len(),
            s == idxs_view(out@),
            s.len() == out@.len(),
            forall|k: int| 0 <= k < i ==> s[k] < x@,
        decreases out@.len() - i,
    {
        proof {
            assert(s[i as int] == out@[i as int]@);
        }
        i = i + 1;
    }
    proof {
        assert(i < out@.len() ==> s[i as int] == out@[i as int]@);
        lemma_sorted_insert_at(s, x@, i as int);
    }
    if i < out.len() && out[i].0 == x.0 {
        return ;
    }
    out.insert(i, x);
    proof {
        assert(idxs_view(final(out)@) =~= s.subrange(0, i as int) + seq![x@] + s.subrange(
            i as int,
            s.len() as int,
        ));
    }
}

/// Sorts a vector of region indices ascending and removes duplicates.
fn sort_dedup_vec(v: &Vec<PyObjectIndex>) -> (r: Vec<PyObjectIndex>)
    ensures
        idxs_view(r@) == sort_dedup(idxs_view(v@)),
{
    let mut out: Vec<PyObjectIndex> = Vec::new();
    let mut j: usize = 0;
    while j < v.len()
        invariant
            0 <= j <= v@.len(),
            idxs_view(out@) == sort_dedup(idxs_view(v@).subrange(0, j as int)),
        decreases v@.len() - j,
    {
        sorted_insert_vec(&mut out, v[j]);
        proof {
            let pre = idxs_view(v@).subrange(0, j as int);
            let post = idxs_view(v@).subrange(0, j + 1);
            assert(post.drop_last() =~= pre);
            assert(post.last() == idxs_view(v@)[j as int]);
            assert(idxs_view(v@)[j as int] == v@[j as int]@);
        }
        j = j + 1;
    }
    proof {
        assert(idxs_view(v@).subrange(0, v@.len() as int) =~= idxs_view(v@));
    }
    out
}


/// `idxs_view` of an insertion at the front.
proof fn lemma_idxs_view_insert0(s: Seq<PyObjectIndex>, x: PyObjectIndex)
    ensures
        idxs_view(s.insert(0, x)) == seq![x@] + idxs_view(s),
{
    assert(idxs_view(s.insert(0, x)) =~= seq![x@] + idxs_view(s));
}

/// `pairs_view` of an insertion at the front.
proof fn lemma_pairs_view_insert0(s: Seq<(PyObjectIndex, PyObjectIndex)>, x: (PyObjectIndex, PyObjectIndex))
    ensures
        pairs_view(s.insert(0, x)) == seq![(x.0@, x.1@)] + pairs_view(s),
{
    assert(pairs_view(s.insert(0, x)) =~= seq![(x.0@, x.1@)] + pairs_view(s));
}

impl Unmarshaller {
    /// Parses one object at the cursor, appending to the region.
    #[verifier::rlimit(80)]
    fn parse_object(&mut self, input: &[u8]) -> (r: Result<PyObjectIndex, UnmarshalError>)
        requires
            old(self)@.pos <= input@.len(),
        ensures
            old(self)@.pos <= final(self)@.pos <= input@.len(),
            old(self)@.objects.len() <= final(self)@.objects.len(),
            r is Ok ==> old(self)@.pos < final(self)@.pos,
            match r {
                Ok(i) => s_parse_obj(input@, old(self)@) == (UStep::Done {
                    idx: i@,
                    st: final(self)@,
                }),
                Err(e) => s_parse_obj(input@, old(self)@) == (UStep::Fail {
                    err: e,
                    st: final(self)@,
                }),
            },
        decreases input@.len() - old(self)@.pos, 1int, 0int,
    {
        if self.pos >= input.len() {
            return Err(UnmarshalError::UnexpectedEof);
        }
        let tag = input[self.pos];
        self.pos = self.pos + 1;
        let flag = tag & 0x80u8 != 0;
        let low = tag & 0x7fu8;
        let t = match PyTypeTag::from_byte(low) {
            Ok(t) => t,
            Err(e) => {
                return Err(e);
            },
        };
        match t {
            PyTypeTag::Null => Err(UnmarshalError::FoundNull),
            PyTypeTag::Unknown => Err(UnmarshalError::ExplicitUnknown),
            PyTypeTag::NoneType => Ok(self.finish(PyObject::NoneType, flag)),
            PyTypeTag::True => Ok(self.finish(PyObject::Bool(true), flag)),
            PyTypeTag::False => Ok(self.finish(PyObject::Bool(false), flag)),
            PyTypeTag::StopIter => Ok(self.finish(PyObject::StopIter, flag)),
            PyTypeTag::Ellipsis => Ok(self.finish(PyObject::Ellipsis, flag)),
            PyTypeTag::Int => {
                if input.len() - self.pos < 4 {
                    return Err(UnmarshalError::UnexpectedEof);
                }
                let v = self.read_i32_64(input);
                Ok(self.finish(PyObject::SmallInt(v), flag))
            },
            PyTypeTag::Int64 => {
                if input.len() - self.pos < 8 {
                    return Err(UnmarshalError::UnexpectedEof);
                }
                let v = self.read_i64(input);
                Ok(self.finish(PyObject::SmallInt(v), flag))
            },
            PyTypeTag::BinaryFloat => {
                if input.len() - self.pos < 8 {
                    return Err(UnmarshalError::UnexpectedEof);
                }
                let bits = self.read_u64(input);
                Ok(self.finish(PyObject::Float(bits), flag))
            },
            PyTypeTag::BinaryComplex => {
                if input.len() - self.pos < 16 {
                    return Err(UnmarshalError::UnexpectedEof);
                }
                let re = self.read_u64(input);
                let im = self.read_u64(input);
                Ok(self.finish(PyObject::Complex(re, im), flag))
            },
            PyTypeTag::Float => {
                let bytes = match self.get_short_str(input) {
                    Ok(b) => b,
                    Err(e) => {
                        return Err(e);
                    },
                };
                let s = match utf8_to_string(bytes.as_slice()) {
                    Some(s) => s,
                    Option::None => {
                        return Err(UnmarshalError::DecodingError);
                    },
                };
                match parse_float_bits(s.as_str()) {
                    Some(bits) => Ok(self.finish(PyObject::Float(bits), flag)),
                    Option::None => Err(UnmarshalError::DecodingError),
                }
            },
            PyTypeTag::Complex => {
                let b1 = match self.get_short_str(input) {
                    Ok(b) => b,
                    Err(e) => {
                        return Err(e);
                    },
                };
                let s1 = match utf8_to_string(b1.as_slice()) {
                    Some(s) => s,
                    Option::None => {
                        return Err(UnmarshalError::DecodingError);
                    },
                };
                let f1 = parse_float_bits(s1.as_str());
                let b2 = match self.get_short_str(input) {
                    Ok(b) => b,
                    Err(e) => {
                        return Err(e);
                    },
                };
                let s2 = match utf8_to_string(b2.as_slice()) {
                    Some(s) => s,
                    Option::None => {
                        return Err(UnmarshalError::DecodingError);
                    },
                };
                let f2 = parse_float_bits(s2.as_str());
                match (f1, f2) {
                    (Some(re), Some(im)) => Ok(self.finish(PyObject::Complex(re, im), flag)),
                    _ => Err(UnmarshalError::DecodingError),
                }
            },
            PyTypeTag::Long => {
                let bytes = match self.get_long_str(input) {
                    Ok(b) => b,
                    Err(e) => {
                        return Err(e);
                    },
                };
                Ok(self.finish(PyObject::LargeInt(bytes), flag))
            },
            PyTypeTag::String => {
                let bytes = match self.get_long_str(input) {
                    Ok(b) => b,
                    Err(e) => {
                        return Err(e);
                    },
                };
                Ok(self.finish(PyObject::Bytes(bytes), flag))
            },
            PyTypeTag::Interned | PyTypeTag::Unicode | PyTypeTag::Ascii
                | PyTypeTag::AsciiInterned => {
                let bytes = match self.get_long_str(input) {
                    Ok(b) => b,
                    Err(e) => {
                        return Err(e);
                    },
                };
                match utf8_to_string(bytes.as_slice()) {
                    Some(s) => Ok(self.finish(PyObject::String(s), flag)),
                    Option::None => Err(UnmarshalError::DecodingError),
                }
            },
            PyTypeTag::ShortAscii | PyTypeTag::ShortAsciiInterned => {
                let bytes = match self.get_short_str(input) {
                    Ok(b) => b,
                    Err(e) => {
                        return Err(e);
                    },
                };
                match utf8_to_string(bytes.as_slice()) {
                    Some(s) => Ok(self.finish(PyObject::String(s), flag)),
                    Option::None => Err(UnmarshalError::DecodingError),
                }
            },
            PyTypeTag::Ref => {
                if input.len() - self.pos < 4 {
                    return Err(UnmarshalError::UnexpectedEof);
                }
                let n = self.read_u32(input) as usize;
                if n < self.refables.len() {
                    Ok(PyObjectIndex(self.refables[n]))
                } else {
                    Err(UnmarshalError::DanglingRef(n))
                }
            },
            PyTypeTag::Tuple | PyTypeTag::List | PyTypeTag::PySet | PyTypeTag::FrozenSet => {
                let slot = self.reserve_slot(flag);
                if input.len() - self.pos < 4 {
                    return Err(UnmarshalError::UnexpectedEof);
                }
                let n64 = self.read_i32_64(input);
                if n64 < 0 {
                    return Err(UnmarshalError::DecodingError);
                }
                let idxs = match self.parse_list(input, n64 as usize) {
                    Ok(v) => v,
                    Err(e) => {
                        return Err(e);
                    },
                };
                let obj = match t {
                    PyTypeTag::List => PyObject::List(idxs),
                    PyTypeTag::PySet => PyObject::PySet(sort_dedup_vec(&idxs)),
                    PyTypeTag::FrozenSet => PyObject::FrozenSet(sort_dedup_vec(&idxs)),
                    _ => PyObject::Tuple(idxs),
                };
                self.set_obj(slot, obj);
                Ok(slot)
            },
            PyTypeTag::SmallTuple => {
                if self.pos >= input.len() {
                    return Err(UnmarshalError::UnexpectedEof);
                }
                let n = input[self.pos] as usize;
                self.pos = self.pos + 1;
                let slot = self.reserve_slot(flag);
                let idxs = match self.parse_list(input, n) {
                    Ok(v) => v,
                    Err(e) => {
                        return Err(e);
                    },
                };
                self.set_obj(slot, PyObject::Tuple(idxs));
                Ok(slot)
            },
            PyTypeTag::Dict => {
                let slot = self.reserve_slot(flag);
                let pairs = match self.parse_dict_items(input) {
                    Ok(v) => v,
                    Err(e) => {
                        return Err(e);
                    },
                };
                self.set_obj(slot, PyObject::Dict(pairs));
                Ok(slot)
            },
            PyTypeTag::Code => {
                let slot = self.reserve_slot(flag);
                if input.len() - self.pos < 20 {
                    return Err(UnmarshalError::UnexpectedEof);
                }
                let arg_count = self.read_i32(input);
                let pos_only_arg_count = self.read_i32(input);
                let kw_only_arg_count = self.read_i32(input);
                let stack_size = self.read_i32(input);
                let flags_field = self.read_i32(input);
                let idxs = match self.parse_list(input, 8) {
                    Ok(v) => v,
                    Err(e) => {
                        return Err(e);
                    },
                };
                if input.len() - self.pos < 4 {
                    return Err(UnmarshalError::UnexpectedEof);
                }
                let first_line_no = self.read_i32(input);
                let idxs2 = match self.parse_list(input, 2) {
                    Ok(v) => v,
                    Err(e) => {
                        return Err(e);
                    },
                };
                let c = CodeObjectConstructor {
                    arg_count,
                    pos_only_arg_count,
                    kw_only_arg_count,
                    stack_size,
                    flags: flags_field,
                    code: idxs[0],
                    consts: idxs[1],
                    names: idxs[2],
                    locals_plus_names: idxs[3],
                    locals_plus_kinds: idxs[4],
                    filename: idxs[5],
                    name: idxs[6],
                    qualified_name: idxs[7],
                    first_line_no,
                    line_table: idxs2[0],
                    exception_table: idxs2[1],
                };
                self.set_obj(slot, PyObject::Code(c));
                Ok(slot)
            },
        }
    }

    /// Parses `n` consecutive objects, yielding their region indices.
    fn parse_list(&mut self, input: &[u8], n: usize) -> (r: Result<
        Vec<PyObjectIndex>,
        UnmarshalError,
    >)
        requires
            old(self)@.pos <= input@.len(),
        ensures
            old(self)@.pos <= final(self)@.pos <= input@.len(),
            old(self)@.objects.len() <= final(self)@.objects.len(),
            match r {
                Ok(v) => s_parse_items(input@, old(self)@, n as int) == (ItemsStep::Done {
                    idxs: idxs_view(v@),
                    st: final(self)@,
                }) && v@.len() == n,
                Err(e) => s_parse_items(input@, old(self)@, n as int) == (ItemsStep::Fail {
                    err: e,
                    st: final(self)@,
                }),
            },
        decreases input@.len() - old(self)@.pos, 2int, n,
    {
        if n == 0 {
            let v: Vec<PyObjectIndex> = Vec::new();
            proof {
                assert(idxs_view(v@) =~= Seq::<int>::empty());
            }
            return Ok(v);
        }
        let i = match self.parse_object(input) {
            Ok(i) => i,
            Err(e) => {
                return Err(e);
            },
        };
        let mut rest = match self.parse_list(input, n - 1) {
            Ok(v) => v,
            Err(e) => {
                return Err(e);
            },
        };
        proof {
            lemma_idxs_view_insert0(rest@, i);
        }
        rest.insert(0, i);
        Ok(rest)
    }

    /// Parses dict entries until a key read attempt fails with `FoundNull`.
    fn parse_dict_items(&mut self, input: &[u8]) -> (r: Result<
        Vec<(PyObjectIndex, PyObjectIndex)>,
        UnmarshalError,
    >)
        requires
            old(self)@.pos <= input@.len(),
        ensures
            old(self)@.pos <= final(self)@.pos <= input@.len(),
            old(self)@.objects.len() <= final(self)@.objects.len(),
            match r {
                Ok(v) => s_parse_dict_items(input@, old(self)@) == (PairsStep::Done {
                    pairs: pairs_view(v@),
                    st: final(self)@,
                }),
                Err(e) => s_parse_dict_items(input@, old(self)@) == (PairsStep::Fail {
                    err: e,
                    st: final(self)@,
                }),
            },
        decreases input@.len() - old(self)@.pos, 2int, 0int,
    {
        let k = match self.parse_object(input) {
            Ok(k) => k,
            Err(UnmarshalError::FoundNull) => {
                let v: Vec<(PyObjectIndex, PyObjectIndex)> = Vec::new();
                proof {
                    assert(pairs_view(v@) =~= Seq::<(int, int)>::empty());
                }
                return Ok(v);
            },
            Err(e) => {
                return Err(e);
            },
        };
        let v = match self.parse_object(input) {
            Ok(v) => v,
            Err(e) => {
                return Err(e);
            },
        };
        let mut rest = match self.parse_dict_items(input) {
            Ok(r) => r,
            Err(e) => {
                return Err(e);
            },
        };
        proof {
            lemma_pairs_view_insert0(rest@, (k, v));
        }
        rest.insert(0, (k, v));
        Ok(rest)
    }

    /// Unmarshals a whole input into an object region, with the root object
    /// at index 0.
    pub fn loads(src: &[u8]) -> (r: Result<PyObjectRegion, UnmarshalError>)
        ensures
            match s_loads(src@) {
                Ok(objs) => r matches Ok(region) && region@ == objs,
                Err(e) => r == Err::<PyObjectRegion, UnmarshalError>(e),
            },
            r matches Ok(region) ==> region@.len() >= 1 && region_indices_valid(region@)
                && region_sets_dedup(region@),
    {
        let mut this = Unmarshaller { pos: 0, objects: Vec::new(), refables: Vec::new() };
        proof {
            assert(this@ =~= (UState { pos: 0, objects: Seq::empty(), refables: Seq::empty() }));
            lemma_root_index(src@);
            lemma_loads_region_valid(src@);
        }
        match this.parse_object(src) {
            Ok(_root) => Ok(PyObjectRegion(this.objects)),
            Err(e) => Err(e),
        }
    }
}


// ---------------------------------------------------------------------------
// Reference validity
// ---------------------------------------------------------------------------

/// Whether every region index held by an object lies inside a region of `n`
/// entries.
pub open spec fn obj_indices_below(o: PyObjV, n: int) -> bool {
    match o {
        PyObjV::VTuple(s) => forall|j: int| 0 <= j < s.len() ==> 0 <= #[trigger] s[j] < n,
        PyObjV::VList(s) => forall|j: int| 0 <= j < s.len() ==> 0 <= #[trigger] s[j] < n,
        PyObjV::VSet(s) => forall|j: int| 0 <= j < s.len() ==> 0 <= #[trigger] s[j] < n,
        PyObjV::VFrozenSet(s) => forall|j: int| 0 <= j < s.len() ==> 0 <= #[trigger] s[j] < n,
        PyObjV::VDict(ps) => forall|j: int|
            0 <= j < ps.len() ==> 0 <= #[trigger] ps[j].0 < n && 0 <= ps[j].1 < n,
        PyObjV::VCode(c) => 0 <= c.code < n && 0 <= c.consts < n && 0 <= c.names < n && 0
            <= c.locals_plus_names < n && 0 <= c.locals_plus_kinds < n && 0 <= c.filename < n && 0
            <= c.name < n && 0 <= c.qualified_name < n && 0 <= c.line_table < n && 0
            <= c.exception_table < n,
        _ => true,
    }
}

/// Whether every internal reference of a region resolves to one of its
/// entries.
pub open spec fn region_indices_valid(objs: Seq<PyObjV>) -> bool {
    forall|i: int| 0 <= i < objs.len() ==> obj_indices_below(#[trigger] objs[i], objs.len() as int)
}

/// Whether an object's set contents, if any, are ascending and free of
/// duplicates.
pub open spec fn obj_sets_dedup(o: PyObjV) -> bool {
    match o {
        PyObjV::VSet(s) => sorted_unique(s),
        PyObjV::VFrozenSet(s) => sorted_unique(s),
        _ => true,
    }
}

/// Whether every set and frozen set of a region is deduplicated.
pub open spec fn region_sets_dedup(objs: Seq<PyObjV>) -> bool {
    forall|i: int| 0 <= i < objs.len() ==> obj_sets_dedup(#[trigger] objs[i])
}

/// Index validity is monotone in the region size.
proof fn lemma_obj_below_mono(o: PyObjV, n: int, m: int)
    requires
        obj_indices_below(o, n),
        n <= m,
    ensures
        obj_indices_below(o, m),
{
}

/// A parse state whose reference table points into the region and whose
/// region holds only internal references.
pub open spec fn st_ok(st: UState) -> bool {
    &&& forall|r: int| 0 <= r < st.refables.len() ==> 0 <= #[trigger] st.refables[r]
        < st.objects.len()
    &&& region_indices_valid(st.objects)
    &&& region_sets_dedup(st.objects)
}

/// Sorting and deduplicating keeps a sequence's values.
proof fn lemma_sort_dedup_contains(s: Seq<int>)
    ensures
        sorted_unique(sort_dedup(s)),
        forall|y: int| sort_dedup(s).contains(y) <==> s.contains(y),
    decreases s.len(),
{
    if s.len() == 0 {
    } else {
        lemma_sort_dedup_contains(s.drop_last());
        lemma_sorted_insert_props(sort_dedup(s.drop_last()), s.last());
        assert forall|y: int| sort_dedup(s).contains(y) <==> s.contains(y) by {
            if sort_dedup(s).contains(y) {
                if s.drop_last().contains(y) {
                    let i = choose|i: int| 0 <= i < s.drop_last().len() && s.drop_last()[i] == y;
                    assert(s[i] == y);
                } else {
                    assert(s[s.len() - 1] == y);
                }
            }
            if s.contains(y) {
                let i = choose|i: int| 0 <= i < s.len() && s[i] == y;
                if i < s.len() - 1 {
                    assert(s.drop_last()[i] == y);
                    assert(s.drop_last().contains(y));
                }
            }
        }
    }
}

/// Appending a finished object whose references lie inside the grown region
/// keeps the state valid.
proof fn lemma_finish_ok(v: PyObjV, flag: bool, pos: int, st: UState)
    requires
        st_ok(st),
        obj_indices_below(v, st.objects.len() + 1int),
        obj_sets_dedup(v),
    ensures
        s_finish(v, flag, pos, st) matches UStep::Done { idx, st: st2 } && 0 <= idx
            < st2.objects.len() && st2.objects.len() == st.objects.len() + 1 && st_ok(st2),
{
    let st2 = match s_finish(v, flag, pos, st) {
        UStep::Done { idx, st: st2 } => st2,
        UStep::Fail { err, st: st2 } => st2,
    };
    assert forall|i: int| 0 <= i < st2.objects.len() implies obj_indices_below(
        #[trigger] st2.objects[i],
        st2.objects.len() as int,
    ) by {
        if i < st.objects.len() {
            lemma_obj_below_mono(st.objects[i], st.objects.len() as int, st2.objects.len() as int);
        }
    }
}

/// Reserving a container slot keeps the state valid.
proof fn lemma_alloc_ok(flag: bool, pos: int, st: UState)
    requires
        st_ok(st),
    ensures
        st_ok(s_alloc(flag, pos, st)),
        s_alloc(flag, pos, st).objects.len() == st.objects.len() + 1,
{
    let st2 = s_alloc(flag, pos, st);
    assert forall|i: int| 0 <= i < st2.objects.len() implies obj_indices_below(
        #[trigger] st2.objects[i],
        st2.objects.len() as int,
    ) by {
        if i < st.objects.len() {
            lemma_obj_below_mono(st.objects[i], st.objects.len() as int, st2.objects.len() as int);
        }
    }
}


/// Overwriting a reserved slot with an object whose references lie inside
/// the region keeps the state valid.
proof fn lemma_update_ok(st: UState, idx: int, v: PyObjV)
    requires
        st_ok(st),
        0 <= idx < st.objects.len(),
        obj_indices_below(v, st.objects.len() as int),
        obj_sets_dedup(v),
    ensures
        st_ok(UState { objects: st.objects.update(idx, v), ..st }),
{
    let st2 = UState { objects: st.objects.update(idx, v), ..st };
    assert forall|i: int| 0 <= i < st2.objects.len() implies obj_indices_below(
        #[trigger] st2.objects[i],
        st2.objects.len() as int,
    ) by {
        if i != idx {
            assert(st2.objects[i] == st.objects[i]);
        }
    }
}

/// The values of a sorted deduplication stay inside the same bound.
proof fn lemma_sort_dedup_below(idxs: Seq<int>, n: int)
    requires
        forall|j: int| 0 <= j < idxs.len() ==> 0 <= #[trigger] idxs[j] < n,
    ensures
        forall|j: int| 0 <= j < sort_dedup(idxs).len() ==> 0 <= #[trigger] sort_dedup(idxs)[j] < n,
{
    lemma_sort_dedup_contains(idxs);
    let d = sort_dedup(idxs);
    assert forall|j: int| 0 <= j < d.len() implies 0 <= #[trigger] d[j] < n by {
        assert(d.contains(d[j]));
        assert(idxs.contains(d[j]));
        let m = choose|m: int| 0 <= m < idxs.len() && idxs[m] == d[j];
        assert(idxs[m] == d[j]);
        assert(0 <= idxs[m] < n);
    }
}

/// Parsing one object preserves reference validity: the region only grows,
/// the new references all resolve, and the returned index lies inside the
/// region.
proof fn lemma_parse_obj_valid(input: Seq<u8>, st: UState)
    requires
        st_ok(st),
    ensures
        match s_parse_obj(input, st) {
            UStep::Done { idx, st: st2 } => st_ok(st2) && 0 <= idx < st2.objects.len()
                && st.objects.len() <= st2.objects.len(),
            UStep::Fail { err, st: st2 } => st_ok(st2) && st.objects.len() <= st2.objects.len(),
        },
    decreases input.len() - st.pos, 1int, 0int,
{
    if st.pos >= input.len() {
    } else {
        let tag = input[st.pos];
        let flag = (tag & 0x80) != 0;
        let low = tag & 0x7f;
        let p = st.pos + 1;
        match tag_of_byte(low) {
            Option::None => {},
            Some(t) => match t {
                PyTypeTag::NoneType => lemma_finish_ok(PyObjV::VNone, flag, p, st),
                PyTypeTag::True => lemma_finish_ok(PyObjV::VBool(true), flag, p, st),
                PyTypeTag::False => lemma_finish_ok(PyObjV::VBool(false), flag, p, st),
                PyTypeTag::StopIter => lemma_finish_ok(PyObjV::VStopIter, flag, p, st),
                PyTypeTag::Ellipsis => lemma_finish_ok(PyObjV::VEllipsis, flag, p, st),
                PyTypeTag::Int => {
                    if p + 4 <= input.len() {
                        lemma_finish_ok(
                            PyObjV::VSmallInt(signed32(le_u32_at(input, p))),
                            flag,
                            p + 4,
                            st,
                        );
                    }
                },
                PyTypeTag::Int64 => {
                    if p + 8 <= input.len() {
                        lemma_finish_ok(
                            PyObjV::VSmallInt(signed64(le_u64_at(input, p))),
                            flag,
                            p + 8,
                            st,
                        );
                    }
                },
                PyTypeTag::BinaryFloat => {
                    if p + 8 <= input.len() {
                        lemma_finish_ok(
                            PyObjV::VFloat(le_u64_at(input, p) as u64),
                            flag,
                            p + 8,
                            st,
                        );
                    }
                },
                PyTypeTag::BinaryComplex => {
                    if p + 16 <= input.len() {
                        lemma_finish_ok(
                            PyObjV::VComplex(
                                le_u64_at(input, p) as u64,
                                le_u64_at(input, p + 8) as u64,
                            ),
                            flag,
                            p + 16,
                            st,
                        );
                    }
                },
                PyTypeTag::Float => {
                    match s_short_str(input, p) {
                        BytesStep::Fail { err, pos } => {},
                        BytesStep::Got { bytes, pos } => {
                            if vstd::utf8::valid_utf8(bytes) {
                                match float_bits_of(vstd::utf8::decode_utf8(bytes)) {
                                    Option::None => {},
                                    Some(bits) => lemma_finish_ok(
                                        PyObjV::VFloat(bits),
                                        flag,
                                        pos,
                                        st,
                                    ),
                                }
                            }
                        },
                    }
                },
                PyTypeTag::Complex => {
                    match s_short_str(input, p) {
                        BytesStep::Fail { err, pos } => {},
                        BytesStep::Got { bytes: b1, pos: p1 } => {
                            if vstd::utf8::valid_utf8(b1) {
                                let f1 = float_bits_of(vstd::utf8::decode_utf8(b1));
                                match s_short_str(input, p1) {
                                    BytesStep::Fail { err, pos } => {},
                                    BytesStep::Got { bytes: b2, pos: p2 } => {
                                        if vstd::utf8::valid_utf8(b2) {
                                            let f2 = float_bits_of(vstd::utf8::decode_utf8(b2));
                                            if f1 is Some && f2 is Some {
                                                lemma_finish_ok(
                                                    PyObjV::VComplex(f1->0, f2->0),
                                                    flag,
                                                    p2,
                                                    st,
                                                );
                                            }
                                        }
                                    },
                                }
                            }
                        },
                    }
                },
                PyTypeTag::Long => {
                    match s_long_str(input, p) {
                        BytesStep::Fail { err, pos } => {},
                        BytesStep::Got { bytes, pos } => lemma_finish_ok(
                            PyObjV::VLargeInt(bytes),
                            flag,
                            pos,
                            st,
                        ),
                    }
                },
                PyTypeTag::String => {
                    match s_long_str(input, p) {
                        BytesStep::Fail { err, pos } => {},
                        BytesStep::Got { bytes, pos } => lemma_finish_ok(
                            PyObjV::VBytes(bytes),
                            flag,
                            pos,
                            st,
                        ),
                    }
                },
                PyTypeTag::Interned | PyTypeTag::Unicode | PyTypeTag::Ascii
                    | PyTypeTag::AsciiInterned => {
                    match s_long_str(input, p) {
                        BytesStep::Fail { err, pos } => {},
                        BytesStep::Got { bytes, pos } => {
                            if vstd::utf8::valid_utf8(bytes) {
                                lemma_finish_ok(
                                    PyObjV::VString(vstd::utf8::decode_utf8(bytes)),
                                    flag,
                                    pos,
                                    st,
                                );
                            }
                        },
                    }
                },
                PyTypeTag::ShortAscii | PyTypeTag::ShortAsciiInterned => {
                    match s_short_str(input, p) {
                        BytesStep::Fail { err, pos } => {},
                        BytesStep::Got { bytes, pos } => {
                            if vstd::utf8::valid_utf8(bytes) {
                                lemma_finish_ok(
                                    PyObjV::VString(vstd::utf8::decode_utf8(bytes)),
                                    flag,
                                    pos,
                                    st,
                                );
                            }
                        },
                    }
                },
                PyTypeTag::Ref => {},
                PyTypeTag::Tuple | PyTypeTag::List | PyTypeTag::PySet
                    | PyTypeTag::FrozenSet => {
                    let idx = st.objects.len() as int;
                    let st2 = s_alloc(flag, p, st);
                    lemma_alloc_ok(flag, p, st);
                    if p + 4 <= input.len() {
                        let n = signed32(le_u32_at(input, p));
                        let st3 = UState { pos: p + 4, ..st2 };
                        if n >= 0 {
                            lemma_parse_items_valid(input, st3, n);
                            match s_parse_items(input, st3, n) {
                                ItemsStep::Fail { err, st: st4 } => {},
                                ItemsStep::Done { idxs, st: st4 } => {
                                    let value = seq_like_value(t, idxs);
                                    lemma_sort_dedup_below(idxs, st4.objects.len() as int);
                                    lemma_sort_dedup_contains(idxs);
                                    assert(obj_indices_below(value, st4.objects.len() as int));
                                    assert(obj_sets_dedup(value));
                                    lemma_update_ok(st4, idx, value);
                                },
                            }
                        }
                    }
                },
                PyTypeTag::SmallTuple => {
                    if p < input.len() {
                        let n = input[p] as int;
                        let idx = st.objects.len() as int;
                        let st2 = s_alloc(flag, p + 1, st);
                        lemma_alloc_ok(flag, p + 1, st);
                        lemma_parse_items_valid(input, st2, n);
                        match s_parse_items(input, st2, n) {
                            ItemsStep::Fail { err, st: st3 } => {},
                            ItemsStep::Done { idxs, st: st3 } => {
                                lemma_update_ok(st3, idx, PyObjV::VTuple(idxs));
                            },
                        }
                    }
                },
                PyTypeTag::Dict => {
                    let idx = st.objects.len() as int;
                    let st2 = s_alloc(flag, p, st);
                    lemma_alloc_ok(flag, p, st);
                    lemma_parse_dict_valid(input, st2);
                    match s_parse_dict_items(input, st2) {
                        PairsStep::Fail { err, st: st3 } => {},
                        PairsStep::Done { pairs, st: st3 } => {
                            lemma_update_ok(st3, idx, PyObjV::VDict(pairs));
                        },
                    }
                },
                PyTypeTag::Code => {
                    let idx = st.objects.len() as int;
                    let st2 = s_alloc(flag, p, st);
                    lemma_alloc_ok(flag, p, st);
                    if p + 20 <= input.len() {
                        let st3 = UState { pos: p + 20, ..st2 };
                        lemma_parse_items_valid(input, st3, 8);
                        match s_parse_items(input, st3, 8) {
                            ItemsStep::Fail { err, st: st4 } => {},
                            ItemsStep::Done { idxs, st: st4 } => {
                                if st3.pos <= st4.pos <= input.len() && st4.pos + 4
                                    <= input.len() {
                                    let st5 = UState { pos: st4.pos + 4, ..st4 };
                                    lemma_parse_items_valid(input, st5, 2);
                                    match s_parse_items(input, st5, 2) {
                                        ItemsStep::Fail { err, st: st6 } => {},
                                        ItemsStep::Done { idxs: idxs2, st: st6 } => {
                                            assert(idxs.len() == 8 && idxs2.len() == 2);
                                            assert forall|j: int|
                                                0 <= j < idxs.len() implies 0 <= #[trigger] idxs[j]
                                                < st6.objects.len() by {}
                                            lemma_update_ok(
                                                st6,
                                                idx,
                                                PyObjV::VCode(
                                                    CodeV {
                                                        arg_count: signed32(le_u32_at(input, p)),
                                                        pos_only_arg_count: signed32(
                                                            le_u32_at(input, p + 4),
                                                        ),
                                                        kw_only_arg_count: signed32(
                                                            le_u32_at(input, p + 8),
                                                        ),
                                                        stack_size: signed32(
                                                            le_u32_at(input, p + 12),
                                                        ),
                                                        flags: signed32(le_u32_at(input, p + 16)),
                                                        code: idxs[0],
                                                        consts: idxs[1],
                                                        names: idxs[2],
                                                        locals_plus_names: idxs[3],
                                                        locals_plus_kinds: idxs[4],
                                                        filename: idxs[5],
                                                        name: idxs[6],
                                                        qualified_name: idxs[7],
                                                        first_line_no: signed32(
                                                            le_u32_at(input, st4.pos),
                                                        ),
                                                        line_table: idxs2[0],
                                                        exception_table: idxs2[1],
                                                    },
                                                ),
                                            );
                                        },
                                    }
                                }
                            },
                        }
                    }
                },
                PyTypeTag::Null => {},
                PyTypeTag::Unknown => {},
            },
        }
    }
}

/// Parsing a run of objects preserves reference validity and yields indices
/// into the region.
proof fn lemma_parse_items_valid(input: Seq<u8>, st: UState, n: int)
    requires
        st_ok(st),
    ensures
        match s_parse_items(input, st, n) {
            ItemsStep::Done { idxs, st: st2 } => st_ok(st2) && st.objects.len()
                <= st2.objects.len() && idxs.len() == (if n >= 0 { n } else { 0 }) && forall|
                j: int,
            |
                0 <= j < idxs.len() ==> 0 <= #[trigger] idxs[j] < st2.objects.len(),
            ItemsStep::Fail { err, st: st2 } => st_ok(st2) && st.objects.len()
                <= st2.objects.len(),
        },
    decreases input.len() - st.pos, 2int, n,
{
    if n <= 0 {
    } else {
        lemma_parse_obj_valid(input, st);
        match s_parse_obj(input, st) {
            UStep::Fail { err, st: st2 } => {},
            UStep::Done { idx, st: st2 } => {
                if st.pos < st2.pos <= input.len() {
                    lemma_parse_items_valid(input, st2, n - 1);
                    match s_parse_items(input, st2, n - 1) {
                        ItemsStep::Fail { err, st: st3 } => {},
                        ItemsStep::Done { idxs, st: st3 } => {
                            assert(idx < st2.objects.len() <= st3.objects.len());
                        },
                    }
                }
            },
        }
    }
}

/// Parsing a dict's entries preserves reference validity and yields index
/// pairs into the region.
proof fn lemma_parse_dict_valid(input: Seq<u8>, st: UState)
    requires
        st_ok(st),
    ensures
        match s_parse_dict_items(input, st) {
            PairsStep::Done { pairs, st: st2 } => st_ok(st2) && st.objects.len()
                <= st2.objects.len() && forall|j: int|
                0 <= j < pairs.len() ==> 0 <= #[trigger] pairs[j].0 < st2.objects.len() && 0
                    <= pairs[j].1 < st2.objects.len(),
            PairsStep::Fail { err, st: st2 } => st_ok(st2) && st.objects.len()
                <= st2.objects.len(),
        },
    decreases input.len() - st.pos, 2int, 0int,
{
    lemma_parse_obj_valid(input, st);
    match s_parse_obj(input, st) {
        UStep::Fail { err, st: st2 } => {},
        UStep::Done { idx: k, st: st2 } => {
            if st.pos <= st2.pos <= input.len() {
                lemma_parse_obj_valid(input, st2);
                match s_parse_obj(input, st2) {
                    UStep::Fail { err, st: st3 } => {},
                    UStep::Done { idx: v, st: st3 } => {
                        if st.pos < st3.pos <= input.len() {
                            lemma_parse_dict_valid(input, st3);
                            match s_parse_dict_items(input, st3) {
                                PairsStep::Fail { err, st: st4 } => {},
                                PairsStep::Done { pairs, st: st4 } => {
                                    assert(k < st2.objects.len() <= st4.objects.len());
                                    assert(v < st3.objects.len() <= st4.objects.len());
                                },
                            }
                        }
                    },
                }
            }
        },
    }
}

/// Reference validity of the unmarshalled region: every index held by any
/// object of a successfully parsed region resolves to a region entry.
pub proof fn lemma_loads_region_valid(input: Seq<u8>)
    ensures
        s_loads(input) matches Ok(objs) ==> region_indices_valid(objs) && region_sets_dedup(objs),
{
    let st0 = UState { pos: 0, objects: Seq::empty(), refables: Seq::empty() };
    lemma_parse_obj_valid(input, st0);
}


/// The root of a parse over an empty region lands at index 0: every object
/// is appended at the then-current region size, and a bare back-reference
/// cannot succeed against an empty reference table.
pub proof fn lemma_root_index(input: Seq<u8>)
    ensures
        match s_parse_obj(
            input,
            UState { pos: 0, objects: Seq::empty(), refables: Seq::empty() },
        ) {
            UStep::Done { idx, st } => idx == 0 && st.objects.len() >= 1,
            UStep::Fail { err, st } => true,
        },
{
    let st0 = UState { pos: 0, objects: Seq::empty(), refables: Seq::empty() };
    if 0 < input.len() {
        let tag = input[0];
        let flag = (tag & 0x80) != 0;
        let low = tag & 0x7f;
        match tag_of_byte(low) {
            Option::None => {},
            Some(t) => match t {
                PyTypeTag::Tuple | PyTypeTag::List | PyTypeTag::PySet
                    | PyTypeTag::FrozenSet => {
                    let st2 = s_alloc(flag, 1, st0);
                    if 1 + 4 <= input.len() {
                        let n = signed32(le_u32_at(input, 1));
                        let st3 = UState { pos: 5, ..st2 };
                        if n >= 0 {
                            lemma_alloc_ok(flag, 1, st0);
                            lemma_parse_items_valid(input, st3, n);
                        }
                    }
                },
                PyTypeTag::SmallTuple => {
                    if 1 < input.len() {
                        let st2 = s_alloc(flag, 2, st0);
                        lemma_alloc_ok(flag, 2, st0);
                        lemma_parse_items_valid(input, st2, input[1] as int);
                    }
                },
                PyTypeTag::Dict => {
                    let st2 = s_alloc(flag, 1, st0);
                    lemma_alloc_ok(flag, 1, st0);
                    lemma_parse_dict_valid(input, st2);
                },
                PyTypeTag::Code => {
                    let st2 = s_alloc(flag, 1, st0);
                    lemma_alloc_ok(flag, 1, st0);
                    if 1 + 20 <= input.len() {
                        let st3 = UState { pos: 21, ..st2 };
                        lemma_parse_items_valid(input, st3, 8);
                        match s_parse_items(input, st3, 8) {
                            ItemsStep::Fail { err, st: st4 } => {},
                            ItemsStep::Done { idxs, st: st4 } => {
                                if st3.pos <= st4.pos <= input.len() && st4.pos + 4
                                    <= input.len() {
                                    let st5 = UState { pos: st4.pos + 4, ..st4 };
                                    lemma_parse_items_valid(input, st5, 2);
                                }
                            },
                        }
                    }
                },
                _ => {},
            },
        }
    }
}

} // verus!
