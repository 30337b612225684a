//! The line splitter: turns a stream of byte chunks into a sequence of
//! newline-delimited records, one growable buffer reused across lines.

use vstd::prelude::*;

use crate::scan::copy_range;
use crate::scan::first_occurrence;
use crate::scan::occurs_at;

verus! {

/// The first record of the pending bytes, with what follows the newline:
/// nothing if no newline has arrived yet.
pub open spec fn split_first_line(s: Seq<u8>) -> Option<(Seq<u8>, Seq<u8>)> {
    match first_occurrence(s, seq![10u8], 0) {
        Some(i) => Some((s.subrange(0, i), s.subrange(i + 1, s.len() as int))),
        None => None,
    }
}

/// A splitter over a byte stream: bytes are fed in chunks as they arrive,
/// and complete lines are taken out as they are found.
pub struct LineSplitter {
    buf: Vec<u8>,
    start: usize,
}

impl LineSplitter {
    /// The splitter's internal invariant.
    pub closed spec fn wf(&self) -> bool {
        self.start <= self.buf@.len()
    }

    /// The bytes fed in and not yet taken out as lines.
    pub closed spec fn pending(&self) -> Seq<u8> {
        self.buf@.subrange(self.start as int, self.buf@.len() as int)
    }

    /// A fresh splitter with nothing pending.
    pub fn new() -> (r: LineSplitter)
        ensures
            r.wf(),
            r.pending() == Seq::<u8>::empty(),
    {
        let r = LineSplitter { buf: Vec::new(), start: 0 };
        proof {
            assert(r.pending() =~= Seq::<u8>::empty());
        }
        r
    }

    /// Feed the next chunk of the stream.
    pub fn feed(&mut self, chunk: &[u8])
        requires
            old(self).wf(),
        ensures
            final(self).wf(),
            final(self).pending() == old(self).pending() + chunk@,
    {
        if self.start > 0 {
            let kept = copy_range(&self.buf, self.start, self.buf.len());
            self.buf = kept;
            self.start = 0;
        }
        self.buf.extend_from_slice(chunk);
        proof {
            assert(self.pending() =~= old(self).pending() + chunk@);
        }
    }

    /// Take the next complete line out, without its newline. Nothing comes
    /// out until a newline has been fed.
    pub fn next_line(&mut self) -> (r: Option<Vec<u8>>)
        requires
            old(self).wf(),
        ensures
            final(self).wf(),
            match r {
                Some(l) => split_first_line(old(self).pending()) == Some(
                    (l@, final(self).pending()),
                ),
                None => {
                    &&& split_first_line(old(self).pending()) is None
                    &&& final(self).pending() == old(self).pending()
                },
            },
    {
        let ghost p = old(self).pending();
        let n: usize = self.buf.len();
        let mut j: usize = self.start;
        while j < n
            invariant
                self == old(self),
                self.wf(),
                n == self.buf@.len(),
                self.start <= j <= n,
                p == self.pending(),
                first_occurrence(p, seq![10u8], 0) == first_occurrence(
                    p,
                    seq![10u8],
                    j - self.start,
                ),
            decreases n - j,
        {
            let ghost k = j - self.start;
            if self.buf[j] == 10 {
                proof {
                    assert(p[k] == 10);
                    assert(p.subrange(k, k + 1) =~= seq![10u8]);
                    assert(occurs_at(p, seq![10u8], k));
                }
                let line = copy_range(&self.buf, self.start, j);
                self.start = j + 1;
                proof {
                    assert(line@ =~= p.subrange(0, k));
                    assert(self.pending() =~= p.subrange(k + 1, p.len() as int));
                }
                return Some(line);
            }
            proof {
                assert(p[k] != 10);
                if occurs_at(p, seq![10u8], k) {
                    assert(p.subrange(k, k + 1)[0] == 10);
                }
                assert(!occurs_at(p, seq![10u8], k));
            }
            j = j + 1;
        }
        None
    }

    /// Take whatever is pending as the last record of the stream, for use at
    /// end of stream; a stream ending in a newline leaves nothing, so a
    /// trailing empty record is not invented.
    pub fn take_rest(&mut self) -> (r: Vec<u8>)
        requires
            old(self).wf(),
        ensures
            final(self).wf(),
            r@ == old(self).pending(),
            final(self).pending() == Seq::<u8>::empty(),
    {
        let r = copy_range(&self.buf, self.start, self.buf.len());
        self.buf = Vec::new();
        self.start = 0;
        proof {
            assert(self.pending() =~= Seq::<u8>::empty());
        }
        r
    }
}

} // verus!
