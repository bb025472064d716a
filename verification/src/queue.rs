//! Shared FIFO of the piece indices still to be downloaded.
//!
//! Workers pop an index from the front and, on any failure, return it to the
//! tail. The callers guard the queue with a mutex and hold it only across a
//! single operation.

use vstd::prelude::*;
use std::collections::VecDeque;

verus! {

/// FIFO of outstanding piece indices.
pub struct PieceQueue {
    q: VecDeque<usize>,
}

impl View for PieceQueue {
    type V = Seq<usize>;

    closed spec fn view(&self) -> Seq<usize> {
        self.q@
    }
}

impl PieceQueue {
    /// An empty queue.
    pub fn new() -> (q: PieceQueue)
        ensures
            q@ == Seq::<usize>::empty(),
    {
        PieceQueue { q: VecDeque::new() }
    }

    /// How many indices are outstanding.
    pub fn len(&self) -> (n: usize)
        ensures
            n == self@.len(),
    {
        self.q.len()
    }

    /// Takes the index at the head, oldest first.
    pub fn pop_front(&mut self) -> (r: Option<usize>)
        ensures
            match r {
                Some(i) => old(self)@.len() > 0 && i == old(self)@[0] && final(self)@ == old(
                    self,
                )@.skip(1),
                None => old(self)@.len() == 0 && final(self)@ == old(self)@,
            },
    {
        let r = self.q.pop_front();
        proof {
            if old(self)@.len() > 0 {
                assert(old(self)@.subrange(1, old(self)@.len() as int) =~= old(self)@.skip(1));
            }
        }
        r
    }

    /// Returns an index to the tail.
    pub fn push_back(&mut self, index: usize)
        ensures
            final(self)@ == old(self)@.push(index),
    {
        self.q.push_back(index);
    }
}

} // verus!
