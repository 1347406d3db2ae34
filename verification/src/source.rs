//! Lazy byte sources: the payload of a write step.

use vstd::prelude::*;

verus! {

/// A finite, forward-only producer of bytes.
///
/// The payload of a write step is taken from such a source one byte at a
/// time, so it need not be materialized as one contiguous buffer: bytes may
/// be computed on the fly or taken from a larger structure without copying.
/// A source is consumed as it is read and cannot be restarted.
pub trait ByteSource: Sized {
    /// The bytes this source has yet to produce, in production order.
    spec fn remaining(&self) -> Seq<u8>;

    /// Produce the next byte, or report that the source is exhausted.
    fn next(&mut self) -> (r: Option<u8>)
        ensures
            match r {
                Some(b) => old(self).remaining().len() > 0 && b == old(self).remaining()[0]
                    && final(self).remaining() == old(self).remaining().drop_first(),
                None => old(self).remaining().len() == 0
                    && final(self).remaining() == old(self).remaining(),
            },
    ;
}

/// A byte source backed by a vector, produced front to back.
#[derive(Debug, PartialEq, Eq)]
pub struct VecSource {
    bytes: Vec<u8>,
    pos: usize,
}

impl VecSource {
    /// Wrap a vector of bytes as a source that will produce exactly them.
    pub fn new(bytes: Vec<u8>) -> (s: Self)
        ensures
            s.remaining() == bytes@,
    {
        VecSource { bytes, pos: 0 }
    }
}

impl ByteSource for VecSource {
    closed spec fn remaining(&self) -> Seq<u8> {
        if self.pos <= self.bytes@.len() {
            self.bytes@.skip(self.pos as int)
        } else {
            Seq::empty()
        }
    }

    fn next(&mut self) -> (r: Option<u8>) {
        if self.pos < self.bytes.len() {
            let b = self.bytes[self.pos];
            self.pos = self.pos + 1;
            proof {
                assert(self.remaining() =~= old(self).remaining().drop_first());
            }
            Some(b)
        } else {
            None
        }
    }
}

} // verus!
