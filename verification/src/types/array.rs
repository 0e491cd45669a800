//! Typed array types: an owned array and the borrowed view a decode returns.
use vstd::prelude::*;
use vstd::slice::slice_to_vec;

use super::dtype::DType;

verus! {

/// The number of elements a shape implies: the product of its dimensions
/// (1 for the empty shape).
pub open spec fn spec_num_elements(shape: Seq<u64>) -> nat
    decreases shape.len(),
{
    if shape.len() == 0 {
        1
    } else {
        spec_num_elements(shape.drop_last()) * (shape.last() as nat)
    }
}

/// True when the running product of the dimensions, taken left to right,
/// never exceeds `u64::MAX`. This is what lets the product be computed in a
/// 64-bit accumulator without overflow.
pub open spec fn prod_fits(shape: Seq<u64>) -> bool
    decreases shape.len(),
{
    if shape.len() == 0 {
        true
    } else {
        prod_fits(shape.drop_last()) && spec_num_elements(shape) <= u64::MAX
    }
}

pub proof fn lemma_prod_fits_prefix(shape: Seq<u64>, i: int)
    requires
        prod_fits(shape),
        0 <= i <= shape.len(),
    ensures
        prod_fits(shape.take(i)),
        spec_num_elements(shape.take(i)) <= u64::MAX,
    decreases shape.len(),
{
    if i == shape.len() {
        assert(shape.take(i) =~= shape);
        if shape.len() > 0 {
            lemma_prod_fits_prefix(shape.drop_last(), shape.len() - 1);
        }
    } else {
        assert(shape.take(i) =~= shape.drop_last().take(i));
        lemma_prod_fits_prefix(shape.drop_last(), i);
    }
}

/// Owned typed array (for building and encoding). The payload is raw bytes;
/// the intended invariant `data.len() == num_elements * element size` is the
/// caller's responsibility and is deliberately not enforced by the codec.
#[derive(Debug, Clone)]
pub struct Array {
    pub dtype: DType,
    pub shape: Vec<u64>,
    pub data: Vec<u8>,
}

/// Compute the product of the dimensions into a 64-bit accumulator.
#[verifier::loop_isolation(false)]
fn num_elements_of(shape: &Vec<u64>) -> (n: u64)
    requires
        prod_fits(shape@),
    ensures
        n as nat == spec_num_elements(shape@),
{
    let mut acc: u64 = 1;
    let mut i: usize = 0;
    while i < shape.len()
        invariant
            prod_fits(shape@),
            0 <= i <= shape@.len(),
            acc as nat == spec_num_elements(shape@.take(i as int)),
        decreases shape@.len() - i,
    {
        proof {
            lemma_prod_fits_prefix(shape@, i + 1);
            assert(shape@.take(i + 1).drop_last() =~= shape@.take(i as int));
            assert(shape@.take(i + 1).last() == shape@[i as int]);
        }
        acc = acc * shape[i];
        i = i + 1;
    }
    proof {
        assert(shape@.take(shape@.len() as int) =~= shape@);
    }
    acc
}

/// Compute the product of the dimensions, or report that it does not fit in
/// 64 bits.
#[verifier::loop_isolation(false)]
pub(crate) fn checked_num_elements_of(shape: &Vec<u64>) -> (r: Option<u64>)
    ensures
        match r {
            Some(n) => prod_fits(shape@) && n as nat == spec_num_elements(shape@),
            None => !prod_fits(shape@),
        },
{
    let mut acc: u64 = 1;
    let mut i: usize = 0;
    while i < shape.len()
        invariant
            0 <= i <= shape@.len(),
            prod_fits(shape@.take(i as int)),
            acc as nat == spec_num_elements(shape@.take(i as int)),
        decreases shape@.len() - i,
    {
        proof {
            assert(shape@.take(i + 1).drop_last() =~= shape@.take(i as int));
            assert(shape@.take(i + 1).last() == shape@[i as int]);
        }
        match acc.checked_mul(shape[i]) {
            Some(next) => {
                acc = next;
            },
            None => {
                proof {
                    lemma_prefix_unfit(shape@, i + 1);
                }
                return None;
            },
        }
        i = i + 1;
    }
    proof {
        assert(shape@.take(shape@.len() as int) =~= shape@);
    }
    Some(acc)
}

proof fn lemma_prefix_unfit(shape: Seq<u64>, i: int)
    requires
        0 <= i <= shape.len(),
        !prod_fits(shape.take(i)),
    ensures
        !prod_fits(shape),
    decreases shape.len() - i,
{
    if i < shape.len() {
        assert(shape.take(i + 1).drop_last() =~= shape.take(i));
        lemma_prefix_unfit(shape, i + 1);
    } else {
        assert(shape.take(i) =~= shape);
    }
}

impl Array {
    pub fn new(dtype: DType, shape: Vec<u64>, data: Vec<u8>) -> (a: Self)
        ensures
            a.dtype == dtype,
            a.shape == shape,
            a.data == data,
    {
        Self { dtype, shape, data }
    }

    /// Total number of elements the shape implies.
    pub fn num_elements(&self) -> (n: u64)
        requires
            prod_fits(self.shape@),
        ensures
            n as nat == spec_num_elements(self.shape@),
    {
        num_elements_of(&self.shape)
    }

    /// Expected payload size in bytes: elements times element size.
    pub fn expected_size(&self) -> (n: u64)
        requires
            prod_fits(self.shape@),
            spec_num_elements(self.shape@) * self.dtype.spec_element_size() <= u64::MAX,
        ensures
            n as nat == spec_num_elements(self.shape@) * self.dtype.spec_element_size(),
    {
        self.num_elements() * (self.dtype.element_size() as u64)
    }

    /// Total number of elements, or `None` when the product does not fit in
    /// 64 bits.
    pub fn checked_num_elements(&self) -> (r: Option<u64>)
        ensures
            match r {
                Some(n) => prod_fits(self.shape@) && n as nat == spec_num_elements(self.shape@),
                None => !prod_fits(self.shape@),
            },
    {
        checked_num_elements_of(&self.shape)
    }
}

/// View into a typed array inside a decoded artifact: the payload borrows
/// from the input buffer.
#[derive(Debug, Clone)]
pub struct ArrayView<'a> {
    pub dtype: DType,
    pub shape: Vec<u64>,
    pub data: &'a [u8],
}

impl<'a> ArrayView<'a> {
    /// Total number of elements the shape implies.
    pub fn num_elements(&self) -> (n: u64)
        requires
            prod_fits(self.shape@),
        ensures
            n as nat == spec_num_elements(self.shape@),
    {
        num_elements_of(&self.shape)
    }

    /// Expected payload size in bytes: elements times element size.
    pub fn expected_size(&self) -> (n: u64)
        requires
            prod_fits(self.shape@),
            spec_num_elements(self.shape@) * self.dtype.spec_element_size() <= u64::MAX,
        ensures
            n as nat == spec_num_elements(self.shape@) * self.dtype.spec_element_size(),
    {
        self.num_elements() * (self.dtype.element_size() as u64)
    }

    /// Total number of elements, or `None` when the product does not fit in
    /// 64 bits.
    pub fn checked_num_elements(&self) -> (r: Option<u64>)
        ensures
            match r {
                Some(n) => prod_fits(self.shape@) && n as nat == spec_num_elements(self.shape@),
                None => !prod_fits(self.shape@),
            },
    {
        checked_num_elements_of(&self.shape)
    }

    /// Convert to an owned array, detached from the buffer.
    pub fn to_owned(&self) -> (a: Array)
        ensures
            a.dtype == self.dtype,
            a.shape@ == self.shape@,
            a.data@ == self.data@,
    {
        Array { dtype: self.dtype, shape: slice_to_vec(self.shape.as_slice()), data: slice_to_vec(self.data) }
    }
}

} // verus!
