//! Where the bytes come from.
use vstd::prelude::*;
use vstd::slice::slice_subrange;

verus! {

/// A sequential provider of bytes: each call hands out the next byte, tells
/// that the bytes are exhausted, or reports that reading failed.
pub trait ByteSource {
    /// What a failed read reports.
    type Error;

    /// Whether `ahead` and `fails_when_dry` describe what this source hands
    /// out. A source that gives no model of its bytes keeps the default, and
    /// its reads then promise nothing.
    open spec fn is_modelled(&self) -> bool {
        false
    }

    /// The bytes that the source will still hand out, in order, where
    /// `is_modelled` holds.
    open spec fn ahead(&self) -> Seq<u8> {
        Seq::empty()
    }

    /// Whether a read fails, rather than telling of exhaustion, once no byte
    /// is left ahead (where `is_modelled` holds).
    open spec fn fails_when_dry(&self) -> bool {
        false
    }

    /// The next byte ahead while one is left; after that `None`, or a failure
    /// where `fails_when_dry` holds.
    fn next_byte(&mut self) -> (r: Option<Result<u8, Self::Error>>)
        ensures
            old(self).is_modelled() ==> final(self).is_modelled() && final(self).fails_when_dry()
                == old(self).fails_when_dry(),
            old(self).is_modelled() && old(self).ahead().len() > 0 ==> {
                &&& r matches Some(Ok(b)) && b == old(self).ahead()[0]
                &&& final(self).ahead() == old(self).ahead().drop_first()
            },
            old(self).is_modelled() && old(self).ahead().len() == 0 ==> {
                &&& final(self).ahead() == old(self).ahead()
                &&& if old(self).fails_when_dry() {
                    r matches Some(Err(_))
                } else {
                    r is None
                }
            },
    ;
}

/// Bytes held in memory: read front to back, never failing.
impl<'a> ByteSource for &'a [u8] {
    type Error = core::convert::Infallible;

    open spec fn is_modelled(&self) -> bool {
        true
    }

    open spec fn ahead(&self) -> Seq<u8> {
        (*self)@
    }

    fn next_byte(&mut self) -> (r: Option<Result<u8, core::convert::Infallible>>) {
        let n = self.len();
        if n == 0 {
            None
        } else {
            let b = self[0];
            *self = slice_subrange(*self, 1, n);
            assert((*self)@ =~= old(self)@.drop_first());
            Some(Ok(b))
        }
    }
}

} // verus!
