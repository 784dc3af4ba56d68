//! A small buffer that gathers short writes before they go to the sink.

use vstd::prelude::*;

verus! {

/// Number of bytes that the buffer holds before it hands them on.
pub const PENDING_CAP: usize = 4096;

/// A fixed array of bytes, filled from the front.
pub struct SmallBuf {
    data: [u8; 4096],
    len: usize,
}

/// What a push leaves pending and what it leaves in the sink.
///
/// Nothing is dropped and nothing changes places: the sink followed by the
/// pending bytes grows by exactly the chunk. A chunk that cannot share the
/// buffer with what is pending sends that to the sink first, and a chunk
/// larger than the buffer follows it there at once.
pub open spec fn pushed(pending: Seq<u8>, sink: Seq<u8>, chunk: Seq<u8>) -> (Seq<u8>, Seq<u8>) {
    if chunk.len() == 0 {
        (pending, sink)
    } else if chunk.len() > PENDING_CAP {
        (Seq::empty(), sink + pending + chunk)
    } else if pending.len() + chunk.len() > PENDING_CAP {
        (chunk, sink + pending)
    } else {
        (pending + chunk, sink)
    }
}

/// A push drops nothing and keeps the order: the sink followed by what is
/// pending grows by the chunk, and what is pending fits the buffer.
pub proof fn lemma_pushed_in_order(pending: Seq<u8>, sink: Seq<u8>, chunk: Seq<u8>)
    requires
        pending.len() <= PENDING_CAP,
    ensures
        pushed(pending, sink, chunk).1 + pushed(pending, sink, chunk).0 == sink + pending + chunk,
        pushed(pending, sink, chunk).0.len() <= PENDING_CAP,
{
    let (left, sent) = pushed(pending, sink, chunk);
    assert(sent + left =~= sink + pending + chunk);
}

impl View for SmallBuf {
    type V = Seq<u8>;

    /// The bytes that wait in the buffer, oldest first.
    closed spec fn view(&self) -> Seq<u8> {
        self.data@.subrange(0, self.len as int)
    }
}

impl SmallBuf {
    #[verifier::type_invariant]
    spec fn fits(&self) -> bool {
        self.len <= PENDING_CAP
    }

    /// An empty buffer.
    pub fn new() -> (buf: Self)
        ensures
            buf@ == Seq::<u8>::empty(),
    {
        SmallBuf { data: [0u8; 4096], len: 0 }
    }

    /// Takes `chunk` in, behind what is pending. What no longer fits goes to
    /// `writer` first.
    pub fn push(&mut self, writer: &mut Vec<u8>, chunk: &[u8])
        ensures
            (final(self)@, final(writer)@) == pushed(old(self)@, old(writer)@, chunk@),
            final(self)@.len() <= PENDING_CAP,
    {
        proof {
            use_type_invariant(&*self);
        }
        if chunk.len() == 0 {
            return ;
        }
        if chunk.len() > PENDING_CAP {
            self.flush(writer);
            writer.extend_from_slice(chunk);
            return ;
        }
        if self.len + chunk.len() > PENDING_CAP {
            self.flush(writer);
            proof {
                use_type_invariant(&*self);
            }
            assert(self@.len() == self.len);
        }
        let ghost before = self@;
        let base: usize = self.len;
        let mut i: usize = 0;
        while i < chunk.len()
            invariant
                i <= chunk.len(),
                base == self.len,
                base + chunk.len() <= PENDING_CAP,
                self.data@.subrange(0, base as int) == before,
                self.data@.subrange(base as int, base + i) =~= chunk@.subrange(0, i as int),
            decreases chunk.len() - i,
        {
            let ghost prev = self.data@;
            self.data[base + i] = chunk[i];
            assert(self.data@.subrange(0, base as int) =~= prev.subrange(0, base as int));
            assert(self.data@.subrange(base as int, base + i + 1) =~= prev.subrange(
                base as int,
                base + i,
            ).push(chunk@[i as int]));
            assert(chunk@.subrange(0, i + 1) =~= chunk@.subrange(0, i as int).push(
                chunk@[i as int],
            ));
            i += 1;
        }
        self.len = base + chunk.len();
        assert(self@ =~= before + chunk@) by {
            assert(chunk@.subrange(0, chunk.len() as int) =~= chunk@);
            assert(self.data@.subrange(0, base + chunk.len()) =~= self.data@.subrange(
                0,
                base as int,
            ) + self.data@.subrange(base as int, base + chunk.len()));
        }
    }

    /// Hands everything that is pending to `writer`.
    pub fn flush(&mut self, writer: &mut Vec<u8>)
        ensures
            final(self)@ == Seq::<u8>::empty(),
            final(writer)@ == old(writer)@ + old(self)@,
    {
        proof {
            use_type_invariant(&*self);
        }
        if self.len > 0 {
            let filled: &[u8] = self.data.as_slice();
            writer.extend_from_slice(&filled[0..self.len]);
            self.len = 0;
        }
        assert(self@ =~= Seq::<u8>::empty());
        assert(old(writer)@ + Seq::<u8>::empty() =~= old(writer)@);
    }
}

} // verus!
