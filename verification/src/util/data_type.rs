//! DataType - a POD type together with an extent (dimensionality).

use vstd::prelude::*;
use vstd::string::*;
use crate::util::pod::{PlainOldDataType, pod_name, pod_width};
use crate::util::text::{decimal_digits, push_decimal};

verus! {

broadcast use vstd::layout::layout_of_primitives;

/// How one element of a sample is stored: a POD type and an extent.
///
/// The derived order compares the POD type first and the extent second.
#[derive(Clone, Copy, Debug, PartialEq, Eq, Structural, Hash, PartialOrd, Ord)]
pub struct DataType {
    /// The base plain old data type
    pub pod: PlainOldDataType,
    /// Number of POD elements (1 for scalar, 3 for Vec3, 16 for a 4x4 matrix)
    pub extent: u8,
}

/// A data type is valid when its POD type is known and its extent positive.
pub open spec fn data_type_is_valid(dt: DataType) -> bool {
    dt.pod != PlainOldDataType::Unknown && dt.extent > 0
}

/// The text of a data type: the POD name, followed by `[extent]` unless the
/// extent is 1.
pub open spec fn data_type_text(dt: DataType) -> Seq<char> {
    if dt.extent == 1 {
        pod_name(dt.pod)
    } else {
        pod_name(dt.pod) + seq!['['] + decimal_digits(dt.extent as nat) + seq![']']
    }
}

impl DataType {
    /// Create a DataType with the given POD type and extent.
    pub fn new(pod: PlainOldDataType, extent: u8) -> (r: Self)
        ensures
            r.pod == pod,
            r.extent == extent,
    {
        Self { pod, extent }
    }

    /// Create a scalar DataType (extent 1).
    pub fn scalar(pod: PlainOldDataType) -> (r: Self)
        ensures
            r.pod == pod,
            r.extent == 1,
    {
        Self { pod, extent: 1 }
    }

    /// The total size in bytes of one element.
    pub fn num_bytes(&self) -> (r: usize)
        ensures
            r == pod_width(self.pod) * self.extent,
    {
        let w = self.pod.num_bytes();
        let e = self.extent as usize;
        assert(w <= 8);
        assert(w * e <= 8 * 255) by (nonlinear_arith)
            requires
                w <= 8,
                e <= 255,
        ;
        w * e
    }

    /// Returns true if this is a valid (known) type.
    pub fn is_valid(&self) -> (r: bool)
        ensures
            r == data_type_is_valid(*self),
    {
        !(self.pod == PlainOldDataType::Unknown) && self.extent > 0
    }

    /// The text of this data type (what `Display` and `Debug` print), such as
    /// `float32_t` or `float32_t[3]`.
    pub fn to_string(&self) -> (r: String)
        ensures
            r@ == data_type_text(*self),
    {
        let mut s = self.pod.name().to_owned();
        if self.extent != 1 {
            proof {
                reveal_strlit("[");
                reveal_strlit("]");
            }
            s.append("[");
            push_decimal(&mut s, self.extent as u64);
            s.append("]");
        }
        s
    }

    /// Unknown/invalid data type.
    #[allow(non_snake_case)]
    pub fn UNKNOWN() -> (r: DataType)
        ensures
            r == (DataType { pod: PlainOldDataType::Unknown, extent: 0 }),
    {
        DataType { pod: PlainOldDataType::Unknown, extent: 0 }
    }

    /// Scalar boolean.
    #[allow(non_snake_case)]
    pub fn BOOL() -> (r: DataType)
        ensures
            r == (DataType { pod: PlainOldDataType::Boolean, extent: 1 }),
    {
        DataType { pod: PlainOldDataType::Boolean, extent: 1 }
    }

    /// Scalar `u8`.
    #[allow(non_snake_case)]
    pub fn UINT8() -> (r: DataType)
        ensures
            r == (DataType { pod: PlainOldDataType::Uint8, extent: 1 }),
    {
        DataType { pod: PlainOldDataType::Uint8, extent: 1 }
    }

    /// Scalar `i8`.
    #[allow(non_snake_case)]
    pub fn INT8() -> (r: DataType)
        ensures
            r == (DataType { pod: PlainOldDataType::Int8, extent: 1 }),
    {
        DataType { pod: PlainOldDataType::Int8, extent: 1 }
    }

    /// Scalar `u16`.
    #[allow(non_snake_case)]
    pub fn UINT16() -> (r: DataType)
        ensures
            r == (DataType { pod: PlainOldDataType::Uint16, extent: 1 }),
    {
        DataType { pod: PlainOldDataType::Uint16, extent: 1 }
    }

    /// Scalar `i16`.
    #[allow(non_snake_case)]
    pub fn INT16() -> (r: DataType)
        ensures
            r == (DataType { pod: PlainOldDataType::Int16, extent: 1 }),
    {
        DataType { pod: PlainOldDataType::Int16, extent: 1 }
    }

    /// Scalar `u32`.
    #[allow(non_snake_case)]
    pub fn UINT32() -> (r: DataType)
        ensures
            r == (DataType { pod: PlainOldDataType::Uint32, extent: 1 }),
    {
        DataType { pod: PlainOldDataType::Uint32, extent: 1 }
    }

    /// Scalar `i32`.
    #[allow(non_snake_case)]
    pub fn INT32() -> (r: DataType)
        ensures
            r == (DataType { pod: PlainOldDataType::Int32, extent: 1 }),
    {
        DataType { pod: PlainOldDataType::Int32, extent: 1 }
    }

    /// Scalar `u64`.
    #[allow(non_snake_case)]
    pub fn UINT64() -> (r: DataType)
        ensures
            r == (DataType { pod: PlainOldDataType::Uint64, extent: 1 }),
    {
        DataType { pod: PlainOldDataType::Uint64, extent: 1 }
    }

    /// Scalar `i64`.
    #[allow(non_snake_case)]
    pub fn INT64() -> (r: DataType)
        ensures
            r == (DataType { pod: PlainOldDataType::Int64, extent: 1 }),
    {
        DataType { pod: PlainOldDataType::Int64, extent: 1 }
    }

    /// Scalar half float.
    #[allow(non_snake_case)]
    pub fn FLOAT16() -> (r: DataType)
        ensures
            r == (DataType { pod: PlainOldDataType::Float16, extent: 1 }),
    {
        DataType { pod: PlainOldDataType::Float16, extent: 1 }
    }

    /// Scalar single float.
    #[allow(non_snake_case)]
    pub fn FLOAT32() -> (r: DataType)
        ensures
            r == (DataType { pod: PlainOldDataType::Float32, extent: 1 }),
    {
        DataType { pod: PlainOldDataType::Float32, extent: 1 }
    }

    /// Scalar double float.
    #[allow(non_snake_case)]
    pub fn FLOAT64() -> (r: DataType)
        ensures
            r == (DataType { pod: PlainOldDataType::Float64, extent: 1 }),
    {
        DataType { pod: PlainOldDataType::Float64, extent: 1 }
    }

    /// Scalar string.
    #[allow(non_snake_case)]
    pub fn STRING() -> (r: DataType)
        ensures
            r == (DataType { pod: PlainOldDataType::String, extent: 1 }),
    {
        DataType { pod: PlainOldDataType::String, extent: 1 }
    }

    /// Scalar wide string.
    #[allow(non_snake_case)]
    pub fn WSTRING() -> (r: DataType)
        ensures
            r == (DataType { pod: PlainOldDataType::Wstring, extent: 1 }),
    {
        DataType { pod: PlainOldDataType::Wstring, extent: 1 }
    }

    /// 2-vector of single floats.
    #[allow(non_snake_case)]
    pub fn VEC2F() -> (r: DataType)
        ensures
            r == (DataType { pod: PlainOldDataType::Float32, extent: 2 }),
    {
        DataType { pod: PlainOldDataType::Float32, extent: 2 }
    }

    /// 3-vector of single floats.
    #[allow(non_snake_case)]
    pub fn VEC3F() -> (r: DataType)
        ensures
            r == (DataType { pod: PlainOldDataType::Float32, extent: 3 }),
    {
        DataType { pod: PlainOldDataType::Float32, extent: 3 }
    }

    /// 4-vector of single floats.
    #[allow(non_snake_case)]
    pub fn VEC4F() -> (r: DataType)
        ensures
            r == (DataType { pod: PlainOldDataType::Float32, extent: 4 }),
    {
        DataType { pod: PlainOldDataType::Float32, extent: 4 }
    }

    /// 2-vector of double floats.
    #[allow(non_snake_case)]
    pub fn VEC2D() -> (r: DataType)
        ensures
            r == (DataType { pod: PlainOldDataType::Float64, extent: 2 }),
    {
        DataType { pod: PlainOldDataType::Float64, extent: 2 }
    }

    /// 3-vector of double floats.
    #[allow(non_snake_case)]
    pub fn VEC3D() -> (r: DataType)
        ensures
            r == (DataType { pod: PlainOldDataType::Float64, extent: 3 }),
    {
        DataType { pod: PlainOldDataType::Float64, extent: 3 }
    }

    /// 4-vector of double floats.
    #[allow(non_snake_case)]
    pub fn VEC4D() -> (r: DataType)
        ensures
            r == (DataType { pod: PlainOldDataType::Float64, extent: 4 }),
    {
        DataType { pod: PlainOldDataType::Float64, extent: 4 }
    }

    /// 2-vector of `i32`.
    #[allow(non_snake_case)]
    pub fn VEC2I() -> (r: DataType)
        ensures
            r == (DataType { pod: PlainOldDataType::Int32, extent: 2 }),
    {
        DataType { pod: PlainOldDataType::Int32, extent: 2 }
    }

    /// 3-vector of `i32`.
    #[allow(non_snake_case)]
    pub fn VEC3I() -> (r: DataType)
        ensures
            r == (DataType { pod: PlainOldDataType::Int32, extent: 3 }),
    {
        DataType { pod: PlainOldDataType::Int32, extent: 3 }
    }

    /// 3x3 single float matrix.
    #[allow(non_snake_case)]
    pub fn MAT33F() -> (r: DataType)
        ensures
            r == (DataType { pod: PlainOldDataType::Float32, extent: 9 }),
    {
        DataType { pod: PlainOldDataType::Float32, extent: 9 }
    }

    /// 4x4 single float matrix.
    #[allow(non_snake_case)]
    pub fn MAT44F() -> (r: DataType)
        ensures
            r == (DataType { pod: PlainOldDataType::Float32, extent: 16 }),
    {
        DataType { pod: PlainOldDataType::Float32, extent: 16 }
    }

    /// 3x3 double float matrix.
    #[allow(non_snake_case)]
    pub fn MAT33D() -> (r: DataType)
        ensures
            r == (DataType { pod: PlainOldDataType::Float64, extent: 9 }),
    {
        DataType { pod: PlainOldDataType::Float64, extent: 9 }
    }

    /// 4x4 double float matrix.
    #[allow(non_snake_case)]
    pub fn MAT44D() -> (r: DataType)
        ensures
            r == (DataType { pod: PlainOldDataType::Float64, extent: 16 }),
    {
        DataType { pod: PlainOldDataType::Float64, extent: 16 }
    }

    /// Single float quaternion.
    #[allow(non_snake_case)]
    pub fn QUATF() -> (r: DataType)
        ensures
            r == (DataType { pod: PlainOldDataType::Float32, extent: 4 }),
    {
        DataType { pod: PlainOldDataType::Float32, extent: 4 }
    }

    /// Double float quaternion.
    #[allow(non_snake_case)]
    pub fn QUATD() -> (r: DataType)
        ensures
            r == (DataType { pod: PlainOldDataType::Float64, extent: 4 }),
    {
        DataType { pod: PlainOldDataType::Float64, extent: 4 }
    }

    /// RGB color.
    #[allow(non_snake_case)]
    pub fn COLOR3F() -> (r: DataType)
        ensures
            r == (DataType { pod: PlainOldDataType::Float32, extent: 3 }),
    {
        DataType { pod: PlainOldDataType::Float32, extent: 3 }
    }

    /// RGBA color.
    #[allow(non_snake_case)]
    pub fn COLOR4F() -> (r: DataType)
        ensures
            r == (DataType { pod: PlainOldDataType::Float32, extent: 4 }),
    {
        DataType { pod: PlainOldDataType::Float32, extent: 4 }
    }

    /// Single float normal.
    #[allow(non_snake_case)]
    pub fn NORMAL3F() -> (r: DataType)
        ensures
            r == (DataType { pod: PlainOldDataType::Float32, extent: 3 }),
    {
        DataType { pod: PlainOldDataType::Float32, extent: 3 }
    }

    /// Double float normal.
    #[allow(non_snake_case)]
    pub fn NORMAL3D() -> (r: DataType)
        ensures
            r == (DataType { pod: PlainOldDataType::Float64, extent: 3 }),
    {
        DataType { pod: PlainOldDataType::Float64, extent: 3 }
    }

    /// 2D single float point.
    #[allow(non_snake_case)]
    pub fn POINT2F() -> (r: DataType)
        ensures
            r == (DataType { pod: PlainOldDataType::Float32, extent: 2 }),
    {
        DataType { pod: PlainOldDataType::Float32, extent: 2 }
    }

    /// 3D single float point.
    #[allow(non_snake_case)]
    pub fn POINT3F() -> (r: DataType)
        ensures
            r == (DataType { pod: PlainOldDataType::Float32, extent: 3 }),
    {
        DataType { pod: PlainOldDataType::Float32, extent: 3 }
    }

    /// 2D double float point.
    #[allow(non_snake_case)]
    pub fn POINT2D() -> (r: DataType)
        ensures
            r == (DataType { pod: PlainOldDataType::Float64, extent: 2 }),
    {
        DataType { pod: PlainOldDataType::Float64, extent: 2 }
    }

    /// 3D double float point.
    #[allow(non_snake_case)]
    pub fn POINT3D() -> (r: DataType)
        ensures
            r == (DataType { pod: PlainOldDataType::Float64, extent: 3 }),
    {
        DataType { pod: PlainOldDataType::Float64, extent: 3 }
    }

    /// Single float box (min and max corners).
    #[allow(non_snake_case)]
    pub fn BOX3F() -> (r: DataType)
        ensures
            r == (DataType { pod: PlainOldDataType::Float32, extent: 6 }),
    {
        DataType { pod: PlainOldDataType::Float32, extent: 6 }
    }

    /// Double float box (min and max corners).
    #[allow(non_snake_case)]
    pub fn BOX3D() -> (r: DataType)
        ensures
            r == (DataType { pod: PlainOldDataType::Float64, extent: 6 }),
    {
        DataType { pod: PlainOldDataType::Float64, extent: 6 }
    }

}

impl Default for DataType {
    fn default() -> (r: Self)
        ensures
            r == (DataType { pod: PlainOldDataType::Unknown, extent: 0 }),
    {
        DataType { pod: PlainOldDataType::Unknown, extent: 0 }
    }
}

} // verus!
