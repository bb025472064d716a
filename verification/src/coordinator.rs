//! Coordinator decisions: the random peer id, the shuffled initial queue,
//! and the per-peer worker mode of one announce cycle. The announce itself
//! and the worker threads live with the caller.

use vstd::prelude::*;
use rand::seq::SliceRandom;
use crate::queue::PieceQueue;

verus! {

/// Below this many outstanding pieces the coordinator runs a session inline
/// instead of spawning a worker thread.
pub const INLINE_THRESHOLD: usize = 10;

/// Relies on rand::random::<u8>: a byte from the thread-local generator;
/// nothing is assumed of its value.
#[verifier::external_body]
fn random_u8() -> u8 {
    rand::random::<u8>()
}

/// Relies on rand's SliceRandom::shuffle: permutes the elements in place by
/// swaps, so the multiset of elements and the length are unchanged; nothing
/// is assumed about the resulting order.
#[verifier::external_body]
fn shuffle_indices(v: &mut Vec<usize>)
    ensures
        final(v)@.to_multiset() == old(v)@.to_multiset(),
        final(v)@.len() == old(v)@.len(),
{
    v.shuffle(&mut rand::thread_rng());
}

/// A fresh random 20-byte peer identifier, drawn once per process.
pub fn generate_peer_id() -> (r: Vec<u8>)
    ensures
        r@.len() == 20,
{
    let mut v: Vec<u8> = Vec::new();
    let mut i: usize = 0;
    while i < 20
        invariant
            0 <= i <= 20,
            v@.len() == i,
        decreases 20 - i,
    {
        v.push(random_u8());
        i += 1;
    }
    v
}

/// The sequence `0, 1, ..., n-1` of piece indices.
pub open spec fn spec_index_seq(n: nat) -> Seq<usize> {
    Seq::new(n, |i: int| i as usize)
}

/// The initial queue: every piece index in `[0, n)` exactly as often as it
/// occurs in `0..n`, in shuffled order to spread simultaneously started
/// workers across the piece space.
pub fn seed_queue(n: usize) -> (q: PieceQueue)
    ensures
        q@.len() == n,
        q@.to_multiset() == spec_index_seq(n as nat).to_multiset(),
        forall|k: int| 0 <= k < q@.len() ==> q@[k] < n,
{
    let mut v: Vec<usize> = Vec::new();
    let mut i: usize = 0;
    while i < n
        invariant
            0 <= i <= n,
            v@ == spec_index_seq(i as nat),
        decreases n - i,
    {
        v.push(i);
        proof {
            assert(spec_index_seq(i as nat).push(i) =~= spec_index_seq((i + 1) as nat));
        }
        i += 1;
    }
    shuffle_indices(&mut v);
    proof {
        broadcast use vstd::seq_lib::group_to_multiset_ensures;

        assert forall|k: int| 0 <= k < v@.len() implies v@[k] < n by {
            assert(v@.contains(v@[k]));
            assert(v@.to_multiset().count(v@[k]) > 0);
            assert(spec_index_seq(n as nat).to_multiset().count(v@[k]) > 0);
            assert(spec_index_seq(n as nat).contains(v@[k]));
            let j = choose|j: int|
                0 <= j < spec_index_seq(n as nat).len() && spec_index_seq(n as nat)[j] == v@[k];
            assert(v@[k] == j as usize);
        }
    }
    let mut q = PieceQueue::new();
    let mut k: usize = 0;
    while k < v.len()
        invariant
            0 <= k <= v@.len(),
            q@ == v@.take(k as int),
            forall|j: int| 0 <= j < v@.len() ==> v@[j] < n,
        decreases v@.len() - k,
    {
        q.push_back(v[k]);
        proof {
            assert(v@.take(k as int).push(v@[k as int]) =~= v@.take(k + 1));
        }
        k += 1;
    }
    proof {
        assert(v@.take(v@.len() as int) =~= v@);
    }
    q
}

/// The initial queue holds each piece index of `[0, n)` exactly once and no
/// other index at all, so a download whose queue drains with nothing held
/// has delivered each piece exactly once.
pub proof fn lemma_index_seq_counts(n: nat)
    requires
        n <= usize::MAX,
    ensures
        forall|i: usize| (i as nat) < n ==> spec_index_seq(n).to_multiset().count(i) == 1,
        forall|i: usize| (i as nat) >= n ==> spec_index_seq(n).to_multiset().count(i) == 0,
{
    broadcast use vstd::seq_lib::group_to_multiset_ensures;

    let s = spec_index_seq(n);
    assert(s.no_duplicates()) by {
        assert forall|i: int, j: int|
            0 <= i < s.len() && 0 <= j < s.len() && i != j implies s[i] != s[j] by {
            assert(s[i] == i as usize);
            assert(s[j] == j as usize);
        }
    }
    s.lemma_multiset_has_no_duplicates();
    assert forall|i: usize| (i as nat) < n implies s.to_multiset().count(i) == 1 by {
        assert(s[i as int] == i);
        assert(s.contains(i));
        assert(s.to_multiset().count(i) > 0);
        assert(s.to_multiset().contains(i));
    }
    assert forall|i: usize| (i as nat) >= n implies s.to_multiset().count(i) == 0 by {
        if s.to_multiset().count(i) > 0 {
            assert(s.contains(i));
            let j = choose|j: int| 0 <= j < s.len() && s[j] == i;
            assert((i as nat) < n);
        }
    }
}

/// What the coordinator does with the next peer of an announce cycle.
#[derive(Clone, Copy, Debug, PartialEq, Eq, Structural)]
pub enum WorkerMode {
    /// The queue is drained: the download is complete.
    Done,
    /// Endgame heuristic: few pieces remain, run the session inline to avoid
    /// thread churn.
    Inline,
    /// Spawn a worker thread for the session.
    Spawn,
}

/// Decides the worker mode from the queue length at the moment the peer is
/// taken up.
pub fn worker_mode(queue_len: usize) -> (m: WorkerMode)
    ensures
        (m == WorkerMode::Done) <==> queue_len == 0,
        (m == WorkerMode::Inline) <==> (0 < queue_len < INLINE_THRESHOLD),
        (m == WorkerMode::Spawn) <==> queue_len >= INLINE_THRESHOLD,
{
    if queue_len == 0 {
        WorkerMode::Done
    } else if queue_len < INLINE_THRESHOLD {
        WorkerMode::Inline
    } else {
        WorkerMode::Spawn
    }
}

} // verus!
