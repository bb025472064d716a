//! Framing reader: reassembles discrete peer-protocol frames from a byte
//! stream of possibly-split, possibly-coalesced reads.
//!
//! One request/response exchange accumulates reads until the byte count is
//! one of three shapes: a bare control frame (5 bytes), exactly one `piece`
//! frame (`BLOCK_SIZE + 13` bytes), or a control frame followed by a `piece`
//! frame (`BLOCK_SIZE + 18` bytes). Anything longer is an overrun.

use vstd::prelude::*;
use crate::BLOCK_SIZE;

verus! {

/// What the accumulated byte count of an exchange says.
#[derive(Clone, Copy, Debug, PartialEq, Eq, Structural)]
pub enum FramerStatus {
    /// No frame is complete yet; keep reading.
    NeedMore,
    /// Exactly one frame is buffered: a control frame or a `piece` frame.
    Complete,
    /// A control frame and a full `piece` frame are buffered back to back.
    Coalesced,
    /// More bytes arrived than any accepted shape holds.
    Overflow,
}

/// The status that a buffer of `len` bytes is in.
pub open spec fn spec_status(len: nat) -> FramerStatus {
    if len == 5 || len == BLOCK_SIZE + 13 {
        FramerStatus::Complete
    } else if len == BLOCK_SIZE + 18 {
        FramerStatus::Coalesced
    } else if len > BLOCK_SIZE + 18 {
        FramerStatus::Overflow
    } else {
        FramerStatus::NeedMore
    }
}

/// The complete frames a finished buffer holds, in order.
pub open spec fn spec_messages(buf: Seq<u8>) -> Seq<Seq<u8>> {
    if buf.len() == 5 || buf.len() == BLOCK_SIZE + 13 {
        seq![buf]
    } else if buf.len() == BLOCK_SIZE + 18 {
        seq![buf.take(5), buf.skip(5)]
    } else {
        Seq::empty()
    }
}

/// Accumulator for the bytes of one exchange.
pub struct Framer {
    buf: Vec<u8>,
}

impl View for Framer {
    type V = Seq<u8>;

    closed spec fn view(&self) -> Seq<u8> {
        self.buf@
    }
}

impl Framer {
    /// An empty accumulator.
    pub fn new() -> (f: Framer)
        ensures
            f@ == Seq::<u8>::empty(),
    {
        Framer { buf: Vec::new() }
    }

    /// The status of the bytes accumulated so far.
    pub fn status(&self) -> (st: FramerStatus)
        ensures
            st == spec_status(self@.len()),
    {
        let n = self.buf.len();
        if n == 5 || n == BLOCK_SIZE + 13 {
            FramerStatus::Complete
        } else if n == BLOCK_SIZE + 18 {
            FramerStatus::Coalesced
        } else if n > BLOCK_SIZE + 18 {
            FramerStatus::Overflow
        } else {
            FramerStatus::NeedMore
        }
    }

    /// Appends the bytes of one read. The accumulated bytes are the
    /// concatenation of the chunks fed so far, however the stream was split.
    pub fn push_chunk(&mut self, chunk: &Vec<u8>) -> (st: FramerStatus)
        ensures
            final(self)@ == old(self)@ + chunk@,
            st == spec_status(final(self)@.len()),
    {
        let mut i: usize = 0;
        while i < chunk.len()
            invariant
                0 <= i <= chunk@.len(),
                self@ == old(self)@ + chunk@.take(i as int),
            decreases chunk@.len() - i,
        {
            self.buf.push(chunk[i]);
            proof {
                assert(old(self)@ + chunk@.take(i + 1) =~= (old(self)@ + chunk@.take(i as int)).push(
                    chunk@[i as int],
                ));
            }
            i += 1;
        }
        proof {
            assert(chunk@.take(chunk@.len() as int) =~= chunk@);
        }
        self.status()
    }

    /// Drops the accumulated bytes, ready for the next exchange.
    pub fn reset(&mut self)
        ensures
            final(self)@ == Seq::<u8>::empty(),
    {
        self.buf.clear();
    }

    /// The complete frames of a finished exchange, in the order they were
    /// received: the whole buffer, or, for a coalesced exchange, the 5-byte
    /// control frame first and the `piece` frame after it.
    pub fn messages(&self) -> (r: Vec<Vec<u8>>)
        requires
            spec_status(self@.len()) == FramerStatus::Complete || spec_status(self@.len())
                == FramerStatus::Coalesced,
        ensures
            r.deep_view() == spec_messages(self@),
    {
        let n = self.buf.len();
        let mut r: Vec<Vec<u8>> = Vec::new();
        if n == BLOCK_SIZE + 18 {
            r.push(copy_range(&self.buf, 0, 5));
            r.push(copy_range(&self.buf, 5, n));
            proof {
                assert(self@.subrange(0, 5) =~= self@.take(5));
                assert(self@.subrange(5, self@.len() as int) =~= self@.skip(5));
                assert(r.deep_view() =~~= spec_messages(self@));
            }
        } else {
            r.push(copy_range(&self.buf, 0, n));
            proof {
                assert(self@.subrange(0, self@.len() as int) =~= self@);
                assert(r.deep_view() =~~= spec_messages(self@));
            }
        }
        r
    }
}

/// A copy of `v[from..to]`.
fn copy_range(v: &Vec<u8>, from: usize, to: usize) -> (r: Vec<u8>)
    requires
        from <= to <= v@.len(),
    ensures
        r@ == v@.subrange(from as int, to as int),
{
    let mut r: Vec<u8> = Vec::new();
    let mut i: usize = from;
    while i < to
        invariant
            from <= i <= to <= v@.len(),
            r@ == v@.subrange(from as int, i as int),
        decreases to - i,
    {
        r.push(v[i]);
        proof {
            assert(v@.subrange(from as int, i + 1) =~= v@.subrange(from as int, i as int).push(
                v@[i as int],
            ));
        }
        i += 1;
    }
    r
}

/// The buffer after feeding `chunks` one after another onto `init`.
pub open spec fn spec_accumulate(init: Seq<u8>, chunks: Seq<Seq<u8>>) -> Seq<u8>
    decreases chunks.len(),
{
    if chunks.len() == 0 {
        init
    } else {
        spec_accumulate(init + chunks.first(), chunks.drop_first())
    }
}

/// Accumulation only concatenates: the buffer after feeding `chunks` is the
/// flattening of the chunks, however the bytes were split across reads.
pub proof fn lemma_accumulate_is_flatten(init: Seq<u8>, chunks: Seq<Seq<u8>>)
    ensures
        spec_accumulate(init, chunks) == init + chunks.flatten(),
    decreases chunks.len(),
{
    if chunks.len() == 0 {
        assert(chunks.flatten() =~= Seq::<u8>::empty());
        assert(init + Seq::<u8>::empty() =~= init);
    } else {
        lemma_accumulate_is_flatten(init + chunks.first(), chunks.drop_first());
        assert((init + chunks.first()) + chunks.drop_first().flatten() =~= init + (chunks.first()
            + chunks.drop_first().flatten()));
    }
}

/// Feeding one frame in any number of pieces leaves the framer holding
/// exactly that frame, so it decodes the same as when fed all at once.
pub proof fn lemma_chunked_feed(m: Seq<u8>, chunks: Seq<Seq<u8>>)
    requires
        chunks.flatten() == m,
    ensures
        spec_accumulate(Seq::<u8>::empty(), chunks) == m,
        spec_messages(spec_accumulate(Seq::<u8>::empty(), chunks)) == spec_messages(m),
{
    lemma_accumulate_is_flatten(Seq::<u8>::empty(), chunks);
    assert(Seq::<u8>::empty() + m =~= m);
}

/// A control frame sent back to back with a full `piece` frame is split into
/// both frames, in order.
pub proof fn lemma_coalesced_pair(c: Seq<u8>, p: Seq<u8>)
    requires
        c.len() == 5,
        p.len() == BLOCK_SIZE + 13,
    ensures
        spec_status((c + p).len()) == FramerStatus::Coalesced,
        spec_messages(c + p) == seq![c, p],
{
    assert((c + p).take(5) =~= c);
    assert((c + p).skip(5) =~= p);
    assert(spec_messages(c + p) =~= seq![c, p]);
}

} // verus!
