//! The byte sink the encoder writes to.
use vstd::prelude::*;

verus! {

/// A sequential byte sink.
///
/// A sink accumulates every byte put into it, in order. A failing put may
/// leave a prefix of the attempted bytes behind: the encoder gives no
/// rollback. `Vec<u8>` is the in-memory sink; callers outside the library
/// implement this for their own writers.
pub trait ByteSink {
    /// True of sink types whose `put` never fails (such as `Vec<u8>`).
    spec fn put_total() -> bool;

    /// The bytes accumulated so far.
    spec fn contents(&self) -> Seq<u8>;

    /// Append `data`. On failure some prefix of `data` may have been
    /// appended; a sink whose `put_total` holds never fails.
    fn put(&mut self, data: &[u8]) -> (r: Result<(), ()>)
        ensures
            match r {
                Ok(()) => final(self).contents() == old(self).contents() + data@,
                Err(()) => !Self::put_total() && (exists|k: int|
                    0 <= k <= data@.len() && final(self).contents() == old(self).contents()
                        + data@.subrange(0, k)),
            },
    ;
}

impl ByteSink for Vec<u8> {
    open spec fn put_total() -> bool {
        true
    }

    open spec fn contents(&self) -> Seq<u8> {
        self@
    }

#[verifier::loop_isolation(false)]
    fn put(&mut self, data: &[u8]) -> (r: Result<(), ()>) {
        let mut i: usize = 0;
        while i < data.len()
            invariant
                0 <= i <= data@.len(),
                self@ == old(self)@ + data@.take(i as int),
            decreases data@.len() - i,
        {
            self.push(data[i]);
            i = i + 1;
            proof {
                assert(data@.take(i as int) =~= data@.take(i - 1).push(data@[i - 1]));
                assert(old(self)@ + data@.take(i as int) =~= (old(self)@ + data@.take(i - 1)).push(
                    data@[i - 1],
                ));
            }
        }
        proof {
            assert(data@.take(data@.len() as int) =~= data@);
        }
        Ok(())
    }
}

} // verus!
