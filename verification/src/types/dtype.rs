//! Element data types for typed arrays.
use vstd::prelude::*;

verus! {

/// Data type of a typed array's elements.
///
/// The floating-point kinds describe only how the raw payload bytes are to be
/// interpreted; the codec itself never computes with the elements.
#[derive(Debug, Clone, Copy, PartialEq, Eq, Structural)]
pub enum DType {
    U8,
    I8,
    U16,
    I16,
    U32,
    I32,
    U64,
    I64,
    F32,
    F64,
}

impl DType {
    /// The wire tag byte of this data type.
    pub open spec fn spec_to_u8(self) -> u8 {
        match self {
            DType::U8 => 0x01,
            DType::I8 => 0x02,
            DType::U16 => 0x03,
            DType::I16 => 0x04,
            DType::U32 => 0x05,
            DType::I32 => 0x06,
            DType::U64 => 0x07,
            DType::I64 => 0x08,
            DType::F32 => 0x09,
            DType::F64 => 0x0A,
        }
    }

    /// The data type a wire tag byte stands for, if any.
    pub open spec fn spec_from_u8(tag: u8) -> Option<DType> {
        if tag == 0x01 {
            Some(DType::U8)
        } else if tag == 0x02 {
            Some(DType::I8)
        } else if tag == 0x03 {
            Some(DType::U16)
        } else if tag == 0x04 {
            Some(DType::I16)
        } else if tag == 0x05 {
            Some(DType::U32)
        } else if tag == 0x06 {
            Some(DType::I32)
        } else if tag == 0x07 {
            Some(DType::U64)
        } else if tag == 0x08 {
            Some(DType::I64)
        } else if tag == 0x09 {
            Some(DType::F32)
        } else if tag == 0x0A {
            Some(DType::F64)
        } else {
            None
        }
    }

    /// Size in bytes of a single element.
    pub open spec fn spec_element_size(self) -> usize {
        match self {
            DType::U8 | DType::I8 => 1,
            DType::U16 | DType::I16 => 2,
            DType::U32 | DType::I32 | DType::F32 => 4,
            DType::U64 | DType::I64 | DType::F64 => 8,
        }
    }

    /// Size in bytes of a single element.
    pub fn element_size(self) -> (n: usize)
        ensures
            n == self.spec_element_size(),
            1 <= n <= 8,
    {
        match self {
            DType::U8 | DType::I8 => 1,
            DType::U16 | DType::I16 => 2,
            DType::U32 | DType::I32 | DType::F32 => 4,
            DType::U64 | DType::I64 | DType::F64 => 8,
        }
    }

    /// Try to convert from a wire tag byte.
    pub fn from_u8(tag: u8) -> (r: Option<Self>)
        ensures
            r == Self::spec_from_u8(tag),
    {
        match tag {
            0x01 => Some(DType::U8),
            0x02 => Some(DType::I8),
            0x03 => Some(DType::U16),
            0x04 => Some(DType::I16),
            0x05 => Some(DType::U32),
            0x06 => Some(DType::I32),
            0x07 => Some(DType::U64),
            0x08 => Some(DType::I64),
            0x09 => Some(DType::F32),
            0x0A => Some(DType::F64),
            _ => None,
        }
    }

    /// The wire tag byte of this data type.
    pub fn to_u8(self) -> (tag: u8)
        ensures
            tag == self.spec_to_u8(),
            Self::spec_from_u8(tag) == Some(self),
    {
        match self {
            DType::U8 => 0x01,
            DType::I8 => 0x02,
            DType::U16 => 0x03,
            DType::I16 => 0x04,
            DType::U32 => 0x05,
            DType::I32 => 0x06,
            DType::U64 => 0x07,
            DType::I64 => 0x08,
            DType::F32 => 0x09,
            DType::F64 => 0x0A,
        }
    }
}

} // verus!
