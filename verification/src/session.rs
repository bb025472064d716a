//! Per-peer session state machine.
//!
//! One session drives one peer conversation. It checks indices out of the
//! shared queue, assembles the blocks of the current piece, tracks the fault
//! and choke budgets, verifies assembled pieces, and on any failure returns
//! the held index to the tail of the queue. The caller performs the socket
//! reads and writes and hands the session the decoded frames.

use vstd::prelude::*;
use vstd::multiset::Multiset;
use crate::bitfield::bitfield_has_piece;
use crate::bitfield::spec_bitfield_len;
use crate::bitfield::spec_has_piece;
use crate::integrity::check_piece;
use crate::integrity::sha1_of;
use crate::messages::read_message;
use crate::messages::spec_msg_choked;
use crate::messages::spec_msg_has_payload;
use crate::messages::spec_msg_ok;
use crate::messages::spec_msg_payload;
use crate::queue::PieceQueue;
use crate::BLOCK_SIZE;

verus! {

/// A session ends once this many transient failures have accumulated.
pub const MAX_FAILS: u8 = 5;

/// A session ends once this many chokes have been received.
pub const MAX_CHOKES: u8 = 4;

/// State of one worker bound to one peer.
pub struct SessionState {
    /// Availability bitmap the peer advertised, immutable for the session.
    pub bitfield: Vec<u8>,
    /// Number of pieces of the torrent.
    pub num_pieces: usize,
    /// Byte length of one full piece.
    pub piece_size: usize,
    /// Transient failures so far; monotonic, never reset.
    pub fails: u8,
    /// Chokes received so far; monotonic, never reset.
    pub times_choked: u8,
    /// The index checked out of the queue, if a piece is being downloaded.
    pub current: Option<usize>,
    /// Blocks of the current piece assembled so far.
    pub piece_buf: Vec<u8>,
    /// The session has ended and touches nothing any more.
    pub terminated: bool,
}

/// The index a session holds, as a multiset.
pub open spec fn spec_opt_multiset(cur: Option<usize>) -> Multiset<usize> {
    match cur {
        Some(i) => Multiset::singleton(i),
        None => Multiset::empty(),
    }
}

/// The indices a queue and a session jointly hold.
pub open spec fn spec_inventory(q: Seq<usize>, cur: Option<usize>) -> Multiset<usize> {
    q.to_multiset().add(spec_opt_multiset(cur))
}

/// One choke: the counter increments and the session terminates exactly when
/// the choke budget is reached.
pub open spec fn spec_choke_transition(pre: u8, post: u8, terminated: bool) -> bool {
    &&& post == pre + 1
    &&& (terminated <==> post == MAX_CHOKES)
}

/// One transient failure: the counter increments and the session terminates
/// exactly when the failure budget is reached.
pub open spec fn spec_fail_transition(pre: u8, post: u8, terminated: bool) -> bool {
    &&& post == pre + 1
    &&& (terminated <==> post == MAX_FAILS)
}

/// The held index, if any, went back to the tail of the queue.
pub open spec fn spec_requeue(
    pre_q: Seq<usize>,
    pre_cur: Option<usize>,
    post_q: Seq<usize>,
    post_cur: Option<usize>,
) -> bool {
    &&& post_cur is None
    &&& match pre_cur {
        Some(i) => post_q == pre_q.push(i),
        None => post_q == pre_q,
    }
}

/// Where a scan of the queue for an advertised index ends (a ghost value:
/// `Seq` fields keep it out of executable code).
pub enum ScanOutcome {
    /// The first advertised head, with the queue behind it and the failures
    /// the misses before it cost.
    Found { index: usize, queue: Seq<usize>, fails: u8 },
    /// The queue was empty from the start.
    Empty { fails: u8 },
    /// Rotated misses exhausted the failure budget; the queue after the last
    /// rotation.
    Budget { queue: Seq<usize> },
}

/// The whole scan that `next_piece` performs, step by step: the head is
/// checked out if the bitfield advertises it; otherwise it is rotated to the
/// tail at the cost of one failure, and the scan ends when the budget is
/// exhausted.
pub open spec fn spec_scan_queue(q: Seq<usize>, b: Seq<u8>, fails: u8) -> ScanOutcome
    decreases MAX_FAILS - fails,
{
    if fails >= MAX_FAILS {
        ScanOutcome::Budget { queue: q }
    } else if q.len() == 0 {
        ScanOutcome::Empty { fails }
    } else if spec_has_piece(b, q[0] as nat) {
        ScanOutcome::Found { index: q[0], queue: q.skip(1), fails }
    } else if fails + 1 == MAX_FAILS {
        ScanOutcome::Budget { queue: q.skip(1).push(q[0]) }
    } else {
        spec_scan_queue(q.skip(1).push(q[0]), b, (fails + 1) as u8)
    }
}

/// What the session asks the caller to do after one step.
#[derive(Clone, Copy, Debug, PartialEq, Eq, Structural)]
pub enum StepOutcome {
    /// Go on with the current piece.
    Continue,
    /// The session has ended; drop the connection.
    Terminate,
}

/// Outcome of checking an index out of the queue.
#[derive(Clone, Copy, Debug, PartialEq, Eq, Structural)]
pub enum NextPiece {
    /// This index was checked out; the peer advertises it.
    Download(usize),
    /// Nothing is left to download; the session ended.
    QueueEmpty,
    /// Bitfield misses exhausted the failure budget; the session ended.
    FailBudget,
}

/// Outcome of verifying an assembled piece.
pub enum PieceOutcome {
    /// The piece hashed as the metainfo promises: delivered with its index.
    Verified(usize, Vec<u8>),
    /// The digest did not match; the index went back to the queue.
    HashMismatch,
    /// The mismatch exhausted the failure budget; the session ended.
    FailBudget,
}

impl SessionState {
    /// Internal consistency of a session.
    pub open spec fn wf(self) -> bool {
        &&& self.fails <= MAX_FAILS
        &&& self.times_choked <= MAX_CHOKES
        &&& self.bitfield@.len() == spec_bitfield_len(self.num_pieces as nat)
        &&& (!self.terminated ==> self.fails < MAX_FAILS && self.times_choked < MAX_CHOKES)
        &&& match self.current {
            Some(i) => i < self.num_pieces && spec_has_piece(self.bitfield@, i as nat),
            None => true,
        }
    }

    /// Everything the session never changes after construction.
    pub open spec fn same_torrent(self, other: SessionState) -> bool {
        &&& self.bitfield == other.bitfield
        &&& self.num_pieces == other.num_pieces
        &&& self.piece_size == other.piece_size
    }

    /// A fresh session, right after the peer's bitfield arrived.
    pub fn new(bitfield: Vec<u8>, num_pieces: usize, piece_size: usize) -> (s: SessionState)
        requires
            bitfield@.len() == spec_bitfield_len(num_pieces as nat),
        ensures
            s.wf(),
            s.bitfield == bitfield,
            s.num_pieces == num_pieces,
            s.piece_size == piece_size,
            s.fails == 0,
            s.times_choked == 0,
            s.current is None,
            s.piece_buf@ == Seq::<u8>::empty(),
            !s.terminated,
    {
        SessionState {
            bitfield,
            num_pieces,
            piece_size,
            fails: 0,
            times_choked: 0,
            current: None,
            piece_buf: Vec::new(),
            terminated: false,
        }
    }

    /// Checks the next downloadable index out of the queue, exactly as
    /// `spec_scan_queue` says: the head is checked out if the bitfield
    /// advertises it; an index the peer does not advertise goes back to the
    /// tail and counts one failure; the scan ends when an advertised index
    /// is found, the queue runs out, or the failure budget is exhausted. No
    /// index is ever lost.
    pub fn next_piece(&mut self, queue: &mut PieceQueue) -> (r: NextPiece)
        requires
            old(self).wf(),
            !old(self).terminated,
            old(self).current is None,
            forall|k: int| 0 <= k < old(queue)@.len() ==> old(queue)@[k] < old(self).num_pieces,
        ensures
            final(self).wf(),
            old(self).same_torrent(*final(self)),
            final(self).times_choked == old(self).times_choked,
            final(self).piece_buf == old(self).piece_buf,
            final(self).fails >= old(self).fails,
            forall|k: int| 0 <= k < final(queue)@.len() ==> final(queue)@[k] < final(self).num_pieces,
            spec_inventory(final(queue)@, final(self).current) == spec_inventory(
                old(queue)@,
                old(self).current,
            ),
            match spec_scan_queue(old(queue)@, old(self).bitfield@, old(self).fails) {
                ScanOutcome::Found { index, queue: rest, fails } => {
                    &&& r == NextPiece::Download(index)
                    &&& final(queue)@ == rest
                    &&& final(self).fails == fails
                    &&& final(self).current == Some(index)
                    &&& !final(self).terminated
                },
                ScanOutcome::Empty { fails } => {
                    &&& r == NextPiece::QueueEmpty
                    &&& final(queue)@.len() == 0
                    &&& final(self).fails == fails
                    &&& final(self).current is None
                    &&& final(self).terminated
                },
                ScanOutcome::Budget { queue: rest } => {
                    &&& r == NextPiece::FailBudget
                    &&& final(queue)@ == rest
                    &&& final(self).fails == MAX_FAILS
                    &&& final(self).current is None
                    &&& final(self).terminated
                },
            },
            match r {
                NextPiece::Download(i) => {
                    &&& final(self).current == Some(i)
                    &&& i < final(self).num_pieces
                    &&& spec_has_piece(final(self).bitfield@, i as nat)
                    &&& !final(self).terminated
                },
                NextPiece::QueueEmpty => {
                    &&& final(queue)@.len() == 0
                    &&& final(self).terminated
                    &&& final(self).current is None
                    &&& final(self).fails == old(self).fails
                },
                NextPiece::FailBudget => {
                    &&& final(self).terminated
                    &&& final(self).fails == MAX_FAILS
                    &&& final(self).current is None
                },
            },
    {
        loop
            invariant
                self.wf(),
                !self.terminated,
                self.current is None,
                old(self).current is None,
                old(self).same_torrent(*self),
                self.times_choked == old(self).times_choked,
                self.piece_buf == old(self).piece_buf,
                self.fails >= old(self).fails,
                forall|k: int| 0 <= k < queue@.len() ==> queue@[k] < self.num_pieces,
                queue@.to_multiset() == old(queue)@.to_multiset(),
                queue@.len() == old(queue)@.len(),
                old(queue)@.len() == 0 ==> self.fails == old(self).fails,
                spec_scan_queue(queue@, self.bitfield@, self.fails) == spec_scan_queue(
                    old(queue)@,
                    old(self).bitfield@,
                    old(self).fails,
                ),
            decreases MAX_FAILS - self.fails,
        {
            let ghost q_pre = queue@;
            let ghost f_pre = self.fails;
            match queue.pop_front() {
                None => {
                    self.terminated = true;
                    proof {
                        assert(spec_scan_queue(q_pre, self.bitfield@, f_pre)
                            == (ScanOutcome::Empty { fails: f_pre }));
                        lemma_inventory_none(queue@, old(queue)@);
                    }
                    return NextPiece::QueueEmpty;
                },
                Some(index) => {
                    proof {
                        lemma_index_fits(index as nat, self.num_pieces as nat);
                    }
                    if bitfield_has_piece(&self.bitfield, index) {
                        self.current = Some(index);
                        proof {
                            assert(spec_scan_queue(q_pre, self.bitfield@, f_pre)
                                == (ScanOutcome::Found {
                                index: q_pre[0],
                                queue: q_pre.skip(1),
                                fails: f_pre,
                            }));
                            lemma_checkout_inventory(q_pre);
                            lemma_inventory_none(q_pre, old(queue)@);
                        }
                        return NextPiece::Download(index);
                    } else {
                        queue.push_back(index);
                        proof {
                            lemma_rotate_multiset(q_pre);
                        }
                        self.fails = self.fails + 1;
                        if self.fails == MAX_FAILS {
                            self.terminated = true;
                            proof {
                                assert(spec_scan_queue(q_pre, self.bitfield@, f_pre)
                                    == (ScanOutcome::Budget {
                                    queue: q_pre.skip(1).push(q_pre[0]),
                                }));
                                lemma_inventory_none(queue@, old(queue)@);
                            }
                            return NextPiece::FailBudget;
                        }
                        proof {
                            assert(spec_scan_queue(q_pre, self.bitfield@, f_pre)
                                == spec_scan_queue(
                                q_pre.skip(1).push(q_pre[0]),
                                self.bitfield@,
                                (f_pre + 1) as u8,
                            ));
                        }
                    }
                },
            }
        }
    }

    /// One `choke` from the peer. The fourth choke of a session re-enqueues
    /// the held index, if any, and terminates; earlier ones only count.
    pub fn on_choke(&mut self, queue: &mut PieceQueue) -> (r: StepOutcome)
        requires
            old(self).wf(),
            !old(self).terminated,
        ensures
            final(self).wf(),
            old(self).same_torrent(*final(self)),
            final(self).fails == old(self).fails,
            final(self).piece_buf == old(self).piece_buf,
            spec_choke_transition(
                old(self).times_choked,
                final(self).times_choked,
                final(self).terminated,
            ),
            (r == StepOutcome::Terminate) <==> final(self).terminated,
            final(self).terminated ==> spec_requeue(
                old(queue)@,
                old(self).current,
                final(queue)@,
                final(self).current,
            ),
            !final(self).terminated ==> final(queue)@ == old(queue)@ && final(self).current == old(
                self,
            ).current,
            spec_inventory(final(queue)@, final(self).current) == spec_inventory(
                old(queue)@,
                old(self).current,
            ),
    {
        self.times_choked = self.times_choked + 1;
        if self.times_choked == MAX_CHOKES {
            if let Some(i) = self.current {
                queue.push_back(i);
                self.current = None;
                proof {
                    lemma_requeue_inventory(old(queue)@, i);
                }
            }
            self.terminated = true;
            StepOutcome::Terminate
        } else {
            StepOutcome::Continue
        }
    }

    /// Appends the block bytes of one `piece` frame to the piece being
    /// assembled.
    pub fn append_block(&mut self, block: &Vec<u8>)
        requires
            old(self).wf(),
            !old(self).terminated,
        ensures
            final(self).wf(),
            old(self).same_torrent(*final(self)),
            final(self).fails == old(self).fails,
            final(self).times_choked == old(self).times_choked,
            final(self).current == old(self).current,
            final(self).terminated == old(self).terminated,
            final(self).piece_buf@ == old(self).piece_buf@ + block@,
    {
        let mut i: usize = 0;
        while i < block.len()
            invariant
                0 <= i <= block@.len(),
                self.piece_buf@ == old(self).piece_buf@ + block@.take(i as int),
                self.bitfield == old(self).bitfield,
                self.num_pieces == old(self).num_pieces,
                self.piece_size == old(self).piece_size,
                self.fails == old(self).fails,
                self.times_choked == old(self).times_choked,
                self.current == old(self).current,
                self.terminated == old(self).terminated,
            decreases block@.len() - i,
        {
            self.piece_buf.push(block[i]);
            proof {
                assert(old(self).piece_buf@ + block@.take(i + 1) =~= (old(self).piece_buf@
                    + block@.take(i as int)).push(block@[i as int]));
            }
            i += 1;
        }
        proof {
            assert(block@.take(block@.len() as int) =~= block@);
        }
    }

    /// A transient per-piece failure: a buffer overrun, or an assembled piece
    /// whose digest does not match. The held index goes back to the tail, the
    /// partial piece is dropped, one failure is counted, and the session
    /// terminates exactly when the budget is exhausted.
    pub fn piece_failed(&mut self, queue: &mut PieceQueue) -> (r: StepOutcome)
        requires
            old(self).wf(),
            !old(self).terminated,
            old(self).current is Some,
        ensures
            final(self).wf(),
            old(self).same_torrent(*final(self)),
            final(self).times_choked == old(self).times_choked,
            final(self).piece_buf@ == Seq::<u8>::empty(),
            spec_fail_transition(old(self).fails, final(self).fails, final(self).terminated),
            spec_requeue(old(queue)@, old(self).current, final(queue)@, final(self).current),
            spec_inventory(final(queue)@, final(self).current) == spec_inventory(
                old(queue)@,
                old(self).current,
            ),
            (r == StepOutcome::Terminate) <==> final(self).terminated,
    {
        let i = self.current.unwrap();
        queue.push_back(i);
        self.current = None;
        self.piece_buf.clear();
        proof {
            lemma_requeue_inventory(old(queue)@, i);
        }
        self.fails = self.fails + 1;
        if self.fails == MAX_FAILS {
            self.terminated = true;
            StepOutcome::Terminate
        } else {
            StepOutcome::Continue
        }
    }

    /// A fatal session error: an I/O failure, a timeout, or an undecodable
    /// frame. The held index, if any, goes back to the tail and the session
    /// ends.
    pub fn on_fatal(&mut self, queue: &mut PieceQueue)
        requires
            old(self).wf(),
        ensures
            final(self).wf(),
            old(self).same_torrent(*final(self)),
            final(self).fails == old(self).fails,
            final(self).times_choked == old(self).times_choked,
            final(self).terminated,
            spec_requeue(old(queue)@, old(self).current, final(queue)@, final(self).current),
            spec_inventory(final(queue)@, final(self).current) == spec_inventory(
                old(queue)@,
                old(self).current,
            ),
    {
        if let Some(i) = self.current {
            queue.push_back(i);
            self.current = None;
            proof {
                lemma_requeue_inventory(old(queue)@, i);
            }
        }
        self.terminated = true;
    }

    /// Handles the decoded frames of one finished exchange, in order: a
    /// choke counts against the choke budget, block bytes extend the piece
    /// being assembled, and a frame that does not decode ends the session.
    pub fn on_messages(&mut self, queue: &mut PieceQueue, msgs: &Vec<Vec<u8>>) -> (r: StepOutcome)
        requires
            old(self).wf(),
            !old(self).terminated,
            old(self).current is Some,
        ensures
            final(self).wf(),
            old(self).same_torrent(*final(self)),
            final(self).fails == old(self).fails,
            spec_inventory(final(queue)@, final(self).current) == spec_inventory(
                old(queue)@,
                old(self).current,
            ),
            (r == StepOutcome::Terminate) <==> final(self).terminated,
            final(self).terminated ==> spec_requeue(
                old(queue)@,
                old(self).current,
                final(queue)@,
                final(self).current,
            ),
            (spec_all_ok(msgs.deep_view()) && old(self).times_choked + spec_choke_count(
                msgs.deep_view(),
            ) >= MAX_CHOKES) ==> final(self).terminated,
            (spec_all_ok(msgs.deep_view()) && old(self).times_choked + spec_choke_count(
                msgs.deep_view(),
            ) < MAX_CHOKES) ==> {
                &&& !final(self).terminated
                &&& final(self).times_choked == old(self).times_choked + spec_choke_count(
                    msgs.deep_view(),
                )
                &&& final(self).piece_buf@ == old(self).piece_buf@ + spec_payload_concat(
                    msgs.deep_view(),
                )
                &&& final(self).current == old(self).current
                &&& final(queue)@ == old(queue)@
            },
    {
        let ghost mv = msgs.deep_view();
        let mut k: usize = 0;
        while k < msgs.len()
            invariant
                self.wf(),
                !self.terminated,
                old(self).current is Some,
                self.current == old(self).current,
                old(self).same_torrent(*self),
                self.fails == old(self).fails,
                queue@ == old(queue)@,
                0 <= k <= msgs@.len(),
                mv == msgs.deep_view(),
                mv.len() == msgs@.len(),
                spec_all_ok(mv.take(k as int)),
                old(self).times_choked + spec_choke_count(mv.take(k as int))
                    == self.times_choked,
                self.piece_buf@ == old(self).piece_buf@ + spec_payload_concat(
                    mv.take(k as int),
                ),
            decreases msgs@.len() - k,
        {
            let m = &msgs[k];
            proof {
                assert(mv[k as int] == m@);
                assert(mv.take(k + 1).drop_last() =~= mv.take(k as int));
                assert(mv.take(k + 1).last() == mv[k as int]);
            }
            match read_message(m) {
                Err(_) => {
                    self.on_fatal(queue);
                    proof {
                        assert(!spec_msg_ok(mv[k as int]));
                        assert(!spec_all_ok(mv));
                    }
                    return StepOutcome::Terminate;
                },
                Ok((choked, payload)) => {
                    if choked {
                        let outcome = self.on_choke(queue);
                        if outcome == StepOutcome::Terminate {
                            proof {
                                lemma_choke_count_prefix(mv, k + 1);
                            }
                            return StepOutcome::Terminate;
                        }
                    }
                    if let Some(p) = payload {
                        self.append_block(&p);
                    }
                    proof {
                        if spec_msg_has_payload(mv[k as int]) {
                            assert(old(self).piece_buf@ + spec_payload_concat(mv.take(k + 1)) =~= (
                            old(self).piece_buf@ + spec_payload_concat(mv.take(k as int)))
                                + spec_msg_payload(mv[k as int]));
                        } else {
                            assert(old(self).piece_buf@ + spec_payload_concat(mv.take(k + 1)) =~= old(
                                self,
                            ).piece_buf@ + spec_payload_concat(mv.take(k as int)));
                        }
                    }
                    k += 1;
                },
            }
        }
        proof {
            assert(mv.take(mv.len() as int) =~= mv);
        }
        StepOutcome::Continue
    }

    /// Verifies the assembled piece against the digest the metainfo promises.
    /// A verified piece is delivered with its index; a mismatch sends the
    /// index back to the tail and counts one failure.
    pub fn finish_piece(&mut self, queue: &mut PieceQueue, expected_hash: &Vec<u8>) -> (r:
        PieceOutcome)
        requires
            old(self).wf(),
            !old(self).terminated,
            old(self).current is Some,
            expected_hash@.len() == 20,
        ensures
            final(self).wf(),
            old(self).same_torrent(*final(self)),
            final(self).times_choked == old(self).times_choked,
            final(self).current is None,
            final(self).piece_buf@ == Seq::<u8>::empty(),
            (r is Verified) <==> sha1_of(old(self).piece_buf@) == expected_hash@,
            r matches PieceOutcome::Verified(i, bytes) ==> {
                &&& Some(i) == old(self).current
                &&& bytes@ == old(self).piece_buf@
                &&& sha1_of(bytes@) == expected_hash@
                &&& final(self).fails == old(self).fails
                &&& !final(self).terminated
                &&& final(queue)@ == old(queue)@
                &&& spec_inventory(final(queue)@, final(self).current).insert(i) == spec_inventory(
                    old(queue)@,
                    old(self).current,
                )
            },
            !(r is Verified) ==> {
                &&& spec_fail_transition(old(self).fails, final(self).fails, final(self).terminated)
                &&& spec_requeue(old(queue)@, old(self).current, final(queue)@, final(self).current)
                &&& spec_inventory(final(queue)@, final(self).current) == spec_inventory(
                    old(queue)@,
                    old(self).current,
                )
                &&& ((r is FailBudget) <==> final(self).terminated)
            },
    {
        let i = self.current.unwrap();
        let ok = check_piece(&self.piece_buf, expected_hash);
        if ok {
            let mut delivered: Vec<u8> = Vec::new();
            std::mem::swap(&mut delivered, &mut self.piece_buf);
            self.current = None;
            proof {
                broadcast use vstd::multiset::group_multiset_axioms;

                assert(spec_inventory(queue@, None).insert(i) =~= spec_inventory(
                    old(queue)@,
                    Some(i),
                ));
            }
            PieceOutcome::Verified(i, delivered)
        } else {
            self.piece_buf.clear();
            queue.push_back(i);
            self.current = None;
            proof {
                lemma_requeue_inventory(old(queue)@, i);
            }
            self.fails = self.fails + 1;
            if self.fails == MAX_FAILS {
                self.terminated = true;
                PieceOutcome::FailBudget
            } else {
                PieceOutcome::HashMismatch
            }
        }
    }
}

/// All frames of an exchange decode without error.
pub open spec fn spec_all_ok(msgs: Seq<Seq<u8>>) -> bool {
    forall|k: int| 0 <= k < msgs.len() ==> spec_msg_ok(#[trigger] msgs[k])
}

/// How many of the frames of an exchange are chokes.
pub open spec fn spec_choke_count(msgs: Seq<Seq<u8>>) -> nat
    decreases msgs.len(),
{
    if msgs.len() == 0 {
        0
    } else {
        spec_choke_count(msgs.drop_last()) + if spec_msg_choked(msgs.last()) {
            1nat
        } else {
            0nat
        }
    }
}

/// The block bytes the frames of an exchange carry, in order.
pub open spec fn spec_payload_concat(msgs: Seq<Seq<u8>>) -> Seq<u8>
    decreases msgs.len(),
{
    if msgs.len() == 0 {
        Seq::empty()
    } else {
        spec_payload_concat(msgs.drop_last()) + if spec_msg_has_payload(msgs.last()) {
            spec_msg_payload(msgs.last())
        } else {
            Seq::empty()
        }
    }
}

/// No later frame can lower the choke count of a prefix.
proof fn lemma_choke_count_prefix(msgs: Seq<Seq<u8>>, k: int)
    requires
        0 <= k <= msgs.len(),
    ensures
        spec_choke_count(msgs.take(k)) <= spec_choke_count(msgs),
    decreases msgs.len() - k,
{
    if k == msgs.len() {
        assert(msgs.take(k) =~= msgs);
    } else {
        assert(msgs.take(k + 1).drop_last() =~= msgs.take(k));
        assert(msgs.take(k + 1).last() == msgs[k]);
        lemma_choke_count_prefix(msgs, k + 1);
    }
}

/// Four chokes exhaust the choke budget: from a fresh session, the first
/// three choke transitions leave the session alive and the fourth terminates
/// it. Together with `on_choke`'s contract, a session that receives four
/// chokes while holding an index re-enqueues that index and delivers nothing
/// more.
pub proof fn lemma_choke_budget(
    c1: u8,
    c2: u8,
    c3: u8,
    c4: u8,
    t1: bool,
    t2: bool,
    t3: bool,
    t4: bool,
)
    requires
        spec_choke_transition(0, c1, t1),
        spec_choke_transition(c1, c2, t2),
        spec_choke_transition(c2, c3, t3),
        spec_choke_transition(c3, c4, t4),
    ensures
        !t1,
        !t2,
        !t3,
        t4,
{
}

/// Five transient failures exhaust the failure budget: from a fresh session,
/// the first four failure transitions (bitfield misses, hash mismatches and
/// overruns alike) leave the session alive and the fifth terminates it.
pub proof fn lemma_fail_budget(
    f1: u8,
    f2: u8,
    f3: u8,
    f4: u8,
    f5: u8,
    t1: bool,
    t2: bool,
    t3: bool,
    t4: bool,
    t5: bool,
)
    requires
        spec_fail_transition(0, f1, t1),
        spec_fail_transition(f1, f2, t2),
        spec_fail_transition(f2, f3, t3),
        spec_fail_transition(f3, f4, t4),
        spec_fail_transition(f4, f5, t5),
    ensures
        !t1,
        !t2,
        !t3,
        !t4,
        t5,
{
}

/// A failing step loses no piece index: if the queue, the held index and the
/// already delivered pieces together cover the whole torrent before a
/// re-enqueueing step, they still do after it.
pub proof fn lemma_requeue_preserves_coverage(
    pre_q: Seq<usize>,
    pre_cur: Option<usize>,
    post_q: Seq<usize>,
    post_cur: Option<usize>,
    delivered: Multiset<usize>,
    all: Multiset<usize>,
)
    requires
        spec_requeue(pre_q, pre_cur, post_q, post_cur),
        spec_inventory(pre_q, pre_cur).add(delivered) == all,
    ensures
        spec_inventory(post_q, post_cur).add(delivered) == all,
{
    match pre_cur {
        Some(i) => {
            lemma_requeue_inventory(pre_q, i);
        },
        None => {},
    }
}

/// Delivering the held index moves it from the session to the delivered
/// pieces: joint coverage of the torrent is unchanged.
pub proof fn lemma_delivery_preserves_coverage(
    q: Seq<usize>,
    i: usize,
    delivered: Multiset<usize>,
    all: Multiset<usize>,
)
    requires
        spec_inventory(q, Some(i)).add(delivered) == all,
    ensures
        spec_inventory(q, None).add(delivered.insert(i)) == all,
{
    broadcast use vstd::multiset::group_multiset_axioms;

    assert(spec_inventory(q, None).add(delivered.insert(i)) =~= spec_inventory(q, Some(i)).add(
        delivered,
    ));
}

/// When the queue has drained and the session holds nothing, the delivered
/// pieces alone cover the whole torrent: every piece index was delivered.
/// With a starting inventory that holds each index exactly once, each piece
/// was delivered exactly once.
pub proof fn lemma_drained_queue_means_complete(delivered: Multiset<usize>, all: Multiset<usize>)
    requires
        spec_inventory(Seq::empty(), None).add(delivered) == all,
    ensures
        delivered == all,
{
    broadcast use vstd::multiset::group_multiset_axioms;
    broadcast use vstd::seq_lib::group_to_multiset_ensures;

    assert(Seq::<usize>::empty().to_multiset().len() == 0);
    assert(spec_inventory(Seq::empty(), None).add(delivered) =~= delivered);
}

/// Blocks per piece: `ceil(piece_size / BLOCK_SIZE)`.
pub fn number_of_blocks(piece_size: usize) -> (n: usize)
    ensures
        n == piece_size / BLOCK_SIZE + if piece_size % BLOCK_SIZE != 0 {
            1int
        } else {
            0int
        },
{
    piece_size / BLOCK_SIZE + if piece_size % BLOCK_SIZE != 0 {
        1
    } else {
        0
    }
}

/// Byte length of piece `index` of a torrent whose content has `total_size`
/// bytes: `min(piece_length, total_size - index * piece_length)`, so only
/// the final piece may be shorter than `piece_length`.
pub fn piece_byte_length(piece_length: usize, total_size: usize, index: usize) -> (r: usize)
    requires
        (index as int) * (piece_length as int) < total_size as int,
    ensures
        r == if total_size - index * piece_length < piece_length {
            total_size - index * piece_length
        } else {
            piece_length as int
        },
{
    let remaining = total_size - index * piece_length;
    if remaining < piece_length {
        remaining
    } else {
        piece_length
    }
}

/// Length to request for block `b` of a piece of `piece_bytes` bytes: a full
/// `BLOCK_SIZE`, or the shorter tail when the piece is not a multiple of it.
pub fn block_request_length(piece_bytes: usize, b: usize) -> (r: usize)
    requires
        (b as int) * (BLOCK_SIZE as int) < piece_bytes as int,
    ensures
        r == if piece_bytes - b * BLOCK_SIZE < BLOCK_SIZE {
            piece_bytes - b * BLOCK_SIZE
        } else {
            BLOCK_SIZE as int
        },
{
    let remaining = piece_bytes - b * BLOCK_SIZE;
    if remaining < BLOCK_SIZE {
        remaining
    } else {
        BLOCK_SIZE
    }
}

/// A piece index of the torrent always falls inside its bitfield.
proof fn lemma_index_fits(i: nat, n: nat)
    requires
        i < n,
    ensures
        i / 8 < spec_bitfield_len(n),
{
    if n % 8 == 0 {
        assert(i / 8 < n / 8) by (nonlinear_arith)
            requires
                i < n,
                n % 8 == 0,
        ;
    } else {
        assert(i / 8 <= n / 8) by (nonlinear_arith)
            requires
                i < n,
        ;
    }
}

/// Two queues with the same contents hold the same inventory.
proof fn lemma_inventory_none(q1: Seq<usize>, q2: Seq<usize>)
    requires
        q1.to_multiset() == q2.to_multiset(),
    ensures
        spec_inventory(q1, None) == spec_inventory(q2, None),
{
    broadcast use vstd::multiset::group_multiset_axioms;

    assert(spec_inventory(q1, None) =~= spec_inventory(q2, None));
}

/// Checking the head of the queue out moves it into the session's hands:
/// the joint inventory does not change.
proof fn lemma_checkout_inventory(q: Seq<usize>)
    requires
        q.len() > 0,
    ensures
        spec_inventory(q.skip(1), Some(q[0])) == spec_inventory(q, None),
{
    broadcast use vstd::seq_lib::group_to_multiset_ensures;
    broadcast use vstd::multiset::group_multiset_axioms;

    assert(q.remove(0) =~= q.skip(1));
    assert(q.skip(1).to_multiset() == q.to_multiset().remove(q[0]));
    assert(q.contains(q[0]));
    assert(spec_inventory(q.skip(1), Some(q[0])) =~= spec_inventory(q, None));
}

/// Rotating the head of the queue to its tail keeps its contents.
proof fn lemma_rotate_multiset(q: Seq<usize>)
    requires
        q.len() > 0,
    ensures
        q.skip(1).push(q[0]).to_multiset() == q.to_multiset(),
{
    broadcast use vstd::seq_lib::group_to_multiset_ensures;
    broadcast use vstd::multiset::group_multiset_axioms;

    assert(q.remove(0) =~= q.skip(1));
    assert(q.skip(1).to_multiset() == q.to_multiset().remove(q[0]));
    assert(q.contains(q[0]));
    assert(q.skip(1).push(q[0]).to_multiset() =~= q.to_multiset());
}

/// Pushing the held index onto the queue preserves the joint inventory.
proof fn lemma_requeue_inventory(q: Seq<usize>, i: usize)
    ensures
        spec_inventory(q.push(i), None) == spec_inventory(q, Some(i)),
{
    broadcast use vstd::seq_lib::group_to_multiset_ensures;
    broadcast use vstd::multiset::group_multiset_axioms;

    assert(q.push(i).to_multiset() =~= q.to_multiset().insert(i));
    assert(spec_inventory(q.push(i), None) =~= spec_inventory(q, Some(i)));
}

} // verus!
