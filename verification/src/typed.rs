//! Validation for typed reinterpretation of array payloads.
//!
//! The decoder deliberately does not cross-check an array's payload length
//! against its shape; a mismatched artifact decodes successfully. These
//! checks are what a typed view of the payload must pass first, so that a
//! mismatch fails cleanly instead of misreading bytes. The unchecked
//! reinterpretation itself lives with the caller that owns the typed-array
//! representation; only the decision logic is here.
use crate::types::DType;
use crate::types::array::{checked_num_elements_of, prod_fits, spec_num_elements};
use vstd::prelude::*;
use vstd::slice::slice_to_vec;

verus! {

/// A failure of conversion between the codec's arrays and a dense
/// typed-array representation.
#[derive(Debug, Clone, PartialEq, Eq)]
pub enum NdarrayError {
    /// The array's element type differs from the requested one.
    DTypeMismatch { expected: DType, actual: DType },
    /// The payload length does not equal the shape-implied element count
    /// times the element size.
    ShapeMismatch { shape: Vec<u64>, data_len: usize },
    /// The payload is not aligned for the requested element type.
    AlignmentError,
    /// The source array's memory is not contiguous in row-major order.
    NotContiguous,
}

/// Check that an array payload of `data_len` bytes, declared with `dtype`
/// and `shape`, may be reinterpreted as elements of type `target`:
/// the element types must agree and the payload length must equal the
/// shape-implied element count times the element size. Returns the element
/// count.
pub fn typed_access_check(dtype: DType, shape: &Vec<u64>, data_len: usize, target: DType) -> (r:
    Result<u64, NdarrayError>)
    ensures
        match r {
            Ok(n) => {
                &&& dtype == target
                &&& prod_fits(shape@)
                &&& n as nat == spec_num_elements(shape@)
                &&& spec_num_elements(shape@) * dtype.spec_element_size() == data_len
            },
            Err(e) => match e {
                NdarrayError::DTypeMismatch { expected, actual } => {
                    &&& expected == target
                    &&& actual == dtype
                    &&& dtype != target
                },
                NdarrayError::ShapeMismatch { shape: sh, data_len: dl } => {
                    &&& sh@ == shape@
                    &&& dl == data_len
                    &&& dtype == target
                    &&& !(prod_fits(shape@) && spec_num_elements(shape@)
                        * dtype.spec_element_size() == data_len)
                },
                _ => false,
            },
        },
{
    if !matches_dtype(dtype, target) {
        return Err(NdarrayError::DTypeMismatch { expected: target, actual: dtype });
    }
    let n = match checked_num_elements_of(shape) {
        Some(n) => n,
        None => {
            return Err(
                NdarrayError::ShapeMismatch { shape: slice_to_vec(shape.as_slice()), data_len },
            );
        },
    };
    let esize = dtype.element_size() as u64;
    match n.checked_mul(esize) {
        Some(total) => {
            if total == data_len as u64 {
                Ok(n)
            } else {
                Err(NdarrayError::ShapeMismatch { shape: slice_to_vec(shape.as_slice()), data_len })
            }
        },
        None => Err(NdarrayError::ShapeMismatch { shape: slice_to_vec(shape.as_slice()), data_len }),
    }
}

/// Equality of two element types.
fn matches_dtype(a: DType, b: DType) -> (r: bool)
    ensures
        r == (a == b),
{
    a == b
}

} // verus!
