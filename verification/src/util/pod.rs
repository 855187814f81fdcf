//! Plain Old Data types - the fundamental storage types of Alembic.

use vstd::prelude::*;
use crate::util::text::str_equals;

verus! {

/// Plain Old Data type: the basic storage type of an Alembic property.
///
/// Each type has a fixed size and a well-defined binary representation.
/// The declaration order is the order of the on-disk type codes.
#[derive(Clone, Copy, Debug, Default, PartialEq, Eq, Structural, Hash, PartialOrd, Ord)]
pub enum PlainOldDataType {
    /// Boolean (stored as u8: 0 = false, non-zero = true)
    Boolean,
    /// Unsigned 8-bit integer
    Uint8,
    /// Signed 8-bit integer
    Int8,
    /// Unsigned 16-bit integer
    Uint16,
    /// Signed 16-bit integer
    Int16,
    /// Unsigned 32-bit integer
    Uint32,
    /// Signed 32-bit integer
    Int32,
    /// Unsigned 64-bit integer
    Uint64,
    /// Signed 64-bit integer
    Int64,
    /// 16-bit floating point (IEEE 754 half precision)
    Float16,
    /// 32-bit floating point (IEEE 754 single precision)
    Float32,
    /// 64-bit floating point (IEEE 754 double precision)
    Float64,
    /// UTF-8 string
    String,
    /// Wide string
    Wstring,
    /// Unknown/invalid type
    #[default]
    Unknown,
}

/// Number of POD types (excluding `Unknown`).
pub const POD_TYPE_COUNT: usize = 14;

/// The code of a type in the on-disk enumeration (0..=13), 127 for `Unknown`.
pub open spec fn pod_code(p: PlainOldDataType) -> int {
    match p {
        PlainOldDataType::Boolean => 0,
        PlainOldDataType::Uint8 => 1,
        PlainOldDataType::Int8 => 2,
        PlainOldDataType::Uint16 => 3,
        PlainOldDataType::Int16 => 4,
        PlainOldDataType::Uint32 => 5,
        PlainOldDataType::Int32 => 6,
        PlainOldDataType::Uint64 => 7,
        PlainOldDataType::Int64 => 8,
        PlainOldDataType::Float16 => 9,
        PlainOldDataType::Float32 => 10,
        PlainOldDataType::Float64 => 11,
        PlainOldDataType::String => 12,
        PlainOldDataType::Wstring => 13,
        PlainOldDataType::Unknown => 127,
    }
}

/// The byte width of one element of a fixed-size type; for the string types
/// the width of a machine word, for `Unknown` zero.
pub open spec fn pod_width(p: PlainOldDataType) -> int {
    match p {
        PlainOldDataType::Boolean | PlainOldDataType::Uint8 | PlainOldDataType::Int8 => 1,
        PlainOldDataType::Uint16 | PlainOldDataType::Int16 | PlainOldDataType::Float16 => 2,
        PlainOldDataType::Uint32 | PlainOldDataType::Int32 | PlainOldDataType::Float32 => 4,
        PlainOldDataType::Uint64 | PlainOldDataType::Int64 | PlainOldDataType::Float64 => 8,
        PlainOldDataType::String | PlainOldDataType::Wstring => vstd::layout::size_of::<usize>() as int,
        PlainOldDataType::Unknown => 0,
    }
}

/// The textual name of a type.
pub open spec fn pod_name(p: PlainOldDataType) -> Seq<char> {
    match p {
        PlainOldDataType::Boolean => "bool_t"@,
        PlainOldDataType::Uint8 => "uint8_t"@,
        PlainOldDataType::Int8 => "int8_t"@,
        PlainOldDataType::Uint16 => "uint16_t"@,
        PlainOldDataType::Int16 => "int16_t"@,
        PlainOldDataType::Uint32 => "uint32_t"@,
        PlainOldDataType::Int32 => "int32_t"@,
        PlainOldDataType::Uint64 => "uint64_t"@,
        PlainOldDataType::Int64 => "int64_t"@,
        PlainOldDataType::Float16 => "float16_t"@,
        PlainOldDataType::Float32 => "float32_t"@,
        PlainOldDataType::Float64 => "float64_t"@,
        PlainOldDataType::String => "string"@,
        PlainOldDataType::Wstring => "wstring"@,
        PlainOldDataType::Unknown => "UNKNOWN"@,
    }
}

/// Integer types.
pub open spec fn pod_is_integer(p: PlainOldDataType) -> bool {
    0 < pod_code(p) < 9
}

/// Floating point types.
pub open spec fn pod_is_float(p: PlainOldDataType) -> bool {
    9 <= pod_code(p) < 12
}

/// String types.
pub open spec fn pod_is_string(p: PlainOldDataType) -> bool {
    12 <= pod_code(p) < 14
}

impl PlainOldDataType {
    /// Returns the size in bytes of a single element of this type.
    /// For String/Wstring, returns the size of a pointer (platform-dependent).
    pub fn num_bytes(self) -> (r: usize)
        ensures
            r == pod_width(self),
    {
        match self {
            Self::Boolean => 1,
            Self::Uint8 => 1,
            Self::Int8 => 1,
            Self::Uint16 => 2,
            Self::Int16 => 2,
            Self::Uint32 => 4,
            Self::Int32 => 4,
            Self::Uint64 => 8,
            Self::Int64 => 8,
            Self::Float16 => 2,
            Self::Float32 => 4,
            Self::Float64 => 8,
            Self::String => core::mem::size_of::<usize>(),
            Self::Wstring => core::mem::size_of::<usize>(),
            Self::Unknown => 0,
        }
    }

    /// Returns the name of this type.
    pub fn name(self) -> (r: &'static str)
        ensures
            r@ == pod_name(self),
    {
        match self {
            Self::Boolean => "bool_t",
            Self::Uint8 => "uint8_t",
            Self::Int8 => "int8_t",
            Self::Uint16 => "uint16_t",
            Self::Int16 => "int16_t",
            Self::Uint32 => "uint32_t",
            Self::Int32 => "int32_t",
            Self::Uint64 => "uint64_t",
            Self::Int64 => "int64_t",
            Self::Float16 => "float16_t",
            Self::Float32 => "float32_t",
            Self::Float64 => "float64_t",
            Self::String => "string",
            Self::Wstring => "wstring",
            Self::Unknown => "UNKNOWN",
        }
    }

    /// The name of this type as an owned string (what `Display` prints).
    pub fn to_string(self) -> (r: String)
        ensures
            r@ == pod_name(self),
    {
        self.name().to_owned()
    }

    /// Parse a POD type from its name; unknown names give `Unknown`.
    pub fn from_name(name: &str) -> (r: Self)
        ensures
            r != PlainOldDataType::Unknown ==> pod_name(r) == name@,
            r == PlainOldDataType::Unknown ==> forall|p: PlainOldDataType|
                p != PlainOldDataType::Unknown ==> pod_name(p) != name@,
    {
        if str_equals(name, "bool_t") { Self::Boolean }
        else if str_equals(name, "uint8_t") { Self::Uint8 }
        else if str_equals(name, "int8_t") { Self::Int8 }
        else if str_equals(name, "uint16_t") { Self::Uint16 }
        else if str_equals(name, "int16_t") { Self::Int16 }
        else if str_equals(name, "uint32_t") { Self::Uint32 }
        else if str_equals(name, "int32_t") { Self::Int32 }
        else if str_equals(name, "uint64_t") { Self::Uint64 }
        else if str_equals(name, "int64_t") { Self::Int64 }
        else if str_equals(name, "float16_t") { Self::Float16 }
        else if str_equals(name, "float32_t") { Self::Float32 }
        else if str_equals(name, "float64_t") { Self::Float64 }
        else if str_equals(name, "string") { Self::String }
        else if str_equals(name, "wstring") { Self::Wstring }
        else { Self::Unknown }
    }

    /// Convert from the on-disk type code; codes above 13 give `Unknown`.
    pub fn from_u8(v: u8) -> (r: Self)
        ensures
            v < 14 ==> pod_code(r) == v,
            v >= 14 ==> r == PlainOldDataType::Unknown,
    {
        match v {
            0 => Self::Boolean,
            1 => Self::Uint8,
            2 => Self::Int8,
            3 => Self::Uint16,
            4 => Self::Int16,
            5 => Self::Uint32,
            6 => Self::Int32,
            7 => Self::Uint64,
            8 => Self::Int64,
            9 => Self::Float16,
            10 => Self::Float32,
            11 => Self::Float64,
            12 => Self::String,
            13 => Self::Wstring,
            _ => Self::Unknown,
        }
    }

    /// Returns true if this is a numeric type (integer or float).
    pub fn is_numeric(self) -> (r: bool)
        ensures
            r == (pod_is_integer(self) || pod_is_float(self)),
    {
        match self {
            Self::Uint8 | Self::Int8 | Self::Uint16 | Self::Int16 | Self::Uint32 | Self::Int32
            | Self::Uint64 | Self::Int64 | Self::Float16 | Self::Float32 | Self::Float64 => true,
            _ => false,
        }
    }

    /// Returns true if this is an integer type.
    pub fn is_integer(self) -> (r: bool)
        ensures
            r == pod_is_integer(self),
    {
        match self {
            Self::Uint8 | Self::Int8 | Self::Uint16 | Self::Int16 | Self::Uint32 | Self::Int32
            | Self::Uint64 | Self::Int64 => true,
            _ => false,
        }
    }

    /// Returns true if this is a floating point type.
    pub fn is_float(self) -> (r: bool)
        ensures
            r == pod_is_float(self),
    {
        match self {
            Self::Float16 | Self::Float32 | Self::Float64 => true,
            _ => false,
        }
    }

    /// Returns true if this is a string type.
    pub fn is_string(self) -> (r: bool)
        ensures
            r == pod_is_string(self),
    {
        match self {
            Self::String | Self::Wstring => true,
            _ => false,
        }
    }
}

/// Distinct types have distinct names.
pub proof fn lemma_pod_names_distinct(p: PlainOldDataType, q: PlainOldDataType)
    ensures
        pod_name(p) == pod_name(q) ==> p == q,
{
    reveal_strlit("bool_t");
    reveal_strlit("uint8_t");
    reveal_strlit("int8_t");
    reveal_strlit("uint16_t");
    reveal_strlit("int16_t");
    reveal_strlit("uint32_t");
    reveal_strlit("int32_t");
    reveal_strlit("uint64_t");
    reveal_strlit("int64_t");
    reveal_strlit("float16_t");
    reveal_strlit("float32_t");
    reveal_strlit("float64_t");
    reveal_strlit("string");
    reveal_strlit("wstring");
    reveal_strlit("UNKNOWN");
    if pod_name(p) == pod_name(q) && p != q {
        assert(pod_name(p).len() != pod_name(q).len() || exists|i: int|
            0 <= i < pod_name(p).len() && pod_name(p)[i] != pod_name(q)[i]) by {
            let a = pod_name(p);
            let b = pod_name(q);
            if a.len() == b.len() {
                assert(a[0] != b[0] || a[1] != b[1] || a[2] != b[2] || a[3] != b[3] || a[4] != b[4] || a[5] != b[5]
                    || (a.len() > 6 && a[6] != b[6]) || (a.len() > 7 && a[7] != b[7]));
            }
        }
    }
}

/// The type codes are those of Alembic's plain-old-data enumeration:
/// boolean 0, uint8 1, int8 2, uint16 3, int16 4, uint32 5, int32 6, uint64
/// 7, int64 8, float16 9, float32 10, float64 11, string 12, wide string 13,
/// and 127 for an unknown type.
pub proof fn lemma_pod_codes_follow_alembic()
    ensures
        pod_code(PlainOldDataType::Boolean) == 0,
        pod_code(PlainOldDataType::Uint8) == 1,
        pod_code(PlainOldDataType::Int8) == 2,
        pod_code(PlainOldDataType::Uint16) == 3,
        pod_code(PlainOldDataType::Int16) == 4,
        pod_code(PlainOldDataType::Uint32) == 5,
        pod_code(PlainOldDataType::Int32) == 6,
        pod_code(PlainOldDataType::Uint64) == 7,
        pod_code(PlainOldDataType::Int64) == 8,
        pod_code(PlainOldDataType::Float16) == 9,
        pod_code(PlainOldDataType::Float32) == 10,
        pod_code(PlainOldDataType::Float64) == 11,
        pod_code(PlainOldDataType::String) == 12,
        pod_code(PlainOldDataType::Wstring) == 13,
        pod_code(PlainOldDataType::Unknown) == 127,
{
}

/// Every named type's code is below 14 and distinct types have distinct codes.
pub proof fn lemma_pod_code_injective(p: PlainOldDataType, q: PlainOldDataType)
    ensures
        pod_code(p) == pod_code(q) ==> p == q,
        p != PlainOldDataType::Unknown <==> 0 <= pod_code(p) < 14,
{
}

/// Boolean type with one byte of storage (like Alembic's `bool_t`).
#[derive(Clone, Copy, Default, PartialEq, Eq, Structural, Hash, Debug)]
pub struct Bool(pub u8);

impl Bool {
    /// The value `true`.
    #[allow(non_snake_case)]
    pub fn TRUE() -> (r: Bool)
        ensures
            r.0 == 1,
    {
        Bool(1)
    }

    /// The value `false`.
    #[allow(non_snake_case)]
    pub fn FALSE() -> (r: Bool)
        ensures
            r.0 == 0,
    {
        Bool(0)
    }

    /// Store a boolean.
    pub fn new(v: bool) -> (r: Self)
        ensures
            r.0 == (if v { 1u8 } else { 0u8 }),
    {
        if v {
            Bool(1)
        } else {
            Bool(0)
        }
    }

    /// Read the boolean back: any non-zero byte is `true`.
    pub fn get(self) -> (r: bool)
        ensures
            r == (self.0 != 0),
    {
        self.0 != 0
    }

    /// The boolean rendered as text (`true` or `false`).
    pub fn to_string(self) -> (r: String)
        ensures
            r@ == (if self.0 != 0 { "true"@ } else { "false"@ }),
    {
        if self.0 != 0 {
            "true".to_owned()
        } else {
            "false".to_owned()
        }
    }
}

impl From<bool> for Bool {
    fn from(v: bool) -> (r: Self) {
        Self::new(v)
    }
}

impl vstd::std_specs::convert::FromSpecImpl<bool> for Bool {
    open spec fn obeys_from_spec() -> bool {
        true
    }

    open spec fn from_spec(v: bool) -> Self {
        Bool(if v { 1u8 } else { 0u8 })
    }
}

impl From<Bool> for bool {
    fn from(v: Bool) -> (r: Self) {
        v.get()
    }
}

impl vstd::std_specs::convert::FromSpecImpl<Bool> for bool {
    open spec fn obeys_from_spec() -> bool {
        true
    }

    open spec fn from_spec(v: Bool) -> Self {
        v.0 != 0
    }
}

/// Storing a boolean and reading it back gives the same boolean.
pub proof fn lemma_bool_roundtrip(v: bool)
    ensures
        (Bool(if v { 1u8 } else { 0u8 }).0 != 0) == v,
{
}

/// Types that can be stored as Alembic POD data.
pub trait AlembicPod: Copy {
    /// The POD type in contracts.
    spec fn spec_pod_type() -> PlainOldDataType;

    /// The corresponding POD type.
    fn pod_type() -> (r: PlainOldDataType)
        ensures
            r == Self::spec_pod_type();

    /// Size of this type in bytes.
    fn size() -> (r: usize)
        ensures
            r == pod_width(Self::spec_pod_type());
}

impl AlembicPod for u8 {
    open spec fn spec_pod_type() -> PlainOldDataType { PlainOldDataType::Uint8 }
    fn pod_type() -> PlainOldDataType { PlainOldDataType::Uint8 }
    fn size() -> usize { 1 }
}

impl AlembicPod for i8 {
    open spec fn spec_pod_type() -> PlainOldDataType { PlainOldDataType::Int8 }
    fn pod_type() -> PlainOldDataType { PlainOldDataType::Int8 }
    fn size() -> usize { 1 }
}

impl AlembicPod for u16 {
    open spec fn spec_pod_type() -> PlainOldDataType { PlainOldDataType::Uint16 }
    fn pod_type() -> PlainOldDataType { PlainOldDataType::Uint16 }
    fn size() -> usize { 2 }
}

impl AlembicPod for i16 {
    open spec fn spec_pod_type() -> PlainOldDataType { PlainOldDataType::Int16 }
    fn pod_type() -> PlainOldDataType { PlainOldDataType::Int16 }
    fn size() -> usize { 2 }
}

impl AlembicPod for u32 {
    open spec fn spec_pod_type() -> PlainOldDataType { PlainOldDataType::Uint32 }
    fn pod_type() -> PlainOldDataType { PlainOldDataType::Uint32 }
    fn size() -> usize { 4 }
}

impl AlembicPod for i32 {
    open spec fn spec_pod_type() -> PlainOldDataType { PlainOldDataType::Int32 }
    fn pod_type() -> PlainOldDataType { PlainOldDataType::Int32 }
    fn size() -> usize { 4 }
}

impl AlembicPod for u64 {
    open spec fn spec_pod_type() -> PlainOldDataType { PlainOldDataType::Uint64 }
    fn pod_type() -> PlainOldDataType { PlainOldDataType::Uint64 }
    fn size() -> usize { 8 }
}

impl AlembicPod for i64 {
    open spec fn spec_pod_type() -> PlainOldDataType { PlainOldDataType::Int64 }
    fn pod_type() -> PlainOldDataType { PlainOldDataType::Int64 }
    fn size() -> usize { 8 }
}

impl AlembicPod for Bool {
    open spec fn spec_pod_type() -> PlainOldDataType { PlainOldDataType::Boolean }
    fn pod_type() -> PlainOldDataType { PlainOldDataType::Boolean }
    fn size() -> usize { 1 }
}

} // verus!
