//! A pull-based byte source feeding the escape-sequence decoder.
//!
//! The decoder consumes bytes one at a time and sometimes has to look at a
//! byte before deciding whether it belongs to the current event.  Keeping the
//! buffered bytes and a cursor together makes that lookahead explicit: a byte
//! the decoder did not use simply stays at the cursor for the next call.
use vstd::prelude::*;

verus! {

/// Buffered console input bytes with a cursor.  Bytes before the cursor have
/// been consumed; [`ByteSource::remaining`] is what the decoder still sees.
pub struct ByteSource {
    /// All bytes handed to this source, consumed or not.
    pub data: Vec<u8>,
    /// Index of the next unconsumed byte; at most `data.len()`.
    pub pos: usize,
}

impl ByteSource {
    /// The cursor never passes the end of the buffer.
    pub open spec fn wf(&self) -> bool {
        self.pos <= self.data@.len()
    }

    /// The bytes not yet consumed.
    pub open spec fn remaining(&self) -> Seq<u8> {
        self.data@.skip(self.pos as int)
    }

    /// A source holding `bytes`, none of them consumed yet.
    pub fn new(bytes: Vec<u8>) -> (r: ByteSource)
        ensures
            r.wf(),
            r.data@ == bytes@,
            r.pos == 0,
            r.remaining() == bytes@,
    {
        let r = ByteSource { data: bytes, pos: 0 };
        proof {
            assert(r.remaining() =~= r.data@);
        }
        r
    }

    /// How many bytes are still unconsumed.
    pub fn remaining_len(&self) -> (r: usize)
        requires
            self.wf(),
        ensures
            r == self.remaining().len(),
    {
        self.data.len() - self.pos
    }

    /// Consume and return the next byte, if any.
    pub fn next(&mut self) -> (r: Option<u8>)
        requires
            old(self).wf(),
        ensures
            final(self).wf(),
            final(self).data@ == old(self).data@,
            old(self).remaining().len() > 0 ==> r == Some(old(self).remaining()[0])
                && final(self).pos == old(self).pos + 1,
            old(self).remaining().len() == 0 ==> r is None && final(self).pos == old(self).pos,
    {
        if self.pos < self.data.len() {
            let b = self.data[self.pos];
            self.pos = self.pos + 1;
            Some(b)
        } else {
            None
        }
    }

    /// Copy of `data[from..to]`, for reporting the raw bytes of an event.
    #[verifier::loop_isolation(false)]
    pub fn copy_range(&self, from: usize, to: usize) -> (r: Vec<u8>)
        requires
            from <= to <= self.data@.len(),
        ensures
            r@ == self.data@.subrange(from as int, to as int),
    {
        let mut r: Vec<u8> = Vec::new();
        let mut k = from;
        while k < to
            invariant
                from <= k <= to <= self.data@.len(),
                r@ == self.data@.subrange(from as int, k as int),
            decreases to - k,
        {
            let b = self.data[k];
            r.push(b);
            proof {
                assert(r@ =~= self.data@.subrange(from as int, k as int + 1));
            }
            k += 1;
        }
        r
    }
}

} // verus!
