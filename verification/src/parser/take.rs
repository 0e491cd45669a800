//! Zero-copy byte taking: the one bounds-checked primitive every read in the
//! decoder goes through.
use crate::error::BlobfigError;
use crate::format::spec_take;
use vstd::prelude::*;
use vstd::slice::slice_subrange;

verus! {

/// A reader of exactly `count` bytes as a borrowed slice.
pub struct Take {
    pub count: usize,
}

impl Take {
    pub fn new(count: usize) -> (t: Self)
        ensures
            t.count == count,
    {
        Take { count }
    }

    /// Take exactly `self.count` bytes of `data` starting at `pos`, as a
    /// slice borrowing from `data`, together with the position just past
    /// them; fail with the end-of-input error at `pos` when fewer remain.
    pub fn parse<'a>(&self, data: &'a [u8], pos: usize) -> (r: Result<
        (&'a [u8], usize),
        BlobfigError,
    >)
        ensures
            match r {
                Ok((out, end)) => {
                    &&& spec_take(data@, pos as int, self.count as int) == Ok::<
                        Seq<u8>,
                        BlobfigError,
                    >(out@)
                    &&& out@ == data@.subrange(pos as int, pos + self.count)
                    &&& end == pos + self.count
                    &&& end <= data@.len()
                },
                Err(e) => {
                    &&& spec_take(data@, pos as int, self.count as int) == Err::<
                        Seq<u8>,
                        BlobfigError,
                    >(e)
                    &&& pos + self.count > data@.len()
                },
            },
    {
        if self.count <= data.len() && pos <= data.len() - self.count {
            let out = slice_subrange(data, pos, pos + self.count);
            Ok((out, pos + self.count))
        } else {
            Err(BlobfigError::UnexpectedEnd { offset: pos })
        }
    }
}

/// Take exactly `count` bytes as a zero-copy slice.
pub fn take(count: usize) -> (t: Take)
    ensures
        t.count == count,
{
    Take::new(count)
}

} // verus!
