//! Selection of one slot out of a scan of the process table.

use crate::process::NPROC;
use vstd::prelude::*;

verus! {

/// How many slots a scan that starts at `start` visits before slot `i`.
pub open spec fn turn(start: int, i: int) -> int {
    (i - start) % (NPROC as int)
}

/// The pick of a scan from `start`, where slot `i` competes with the key
/// `keys[i]`, or not at all: a slot with the least key, the first of them in
/// scan order, and none if no slot competes.
pub open spec fn picks_least(keys: Seq<Option<int>>, start: int, pick: Option<usize>) -> bool {
    picks_least_of(keys, start, NPROC as int, pick)
}

/// As `picks_least`, among the first `count` slots that the scan visits.
pub open spec fn picks_least_of(
    keys: Seq<Option<int>>,
    start: int,
    count: int,
    pick: Option<usize>,
) -> bool {
    match pick {
        None => forall|i: int| 0 <= i < NPROC && turn(start, i) < count ==> keys[i] is None,
        Some(p) => {
            &&& p < NPROC
            &&& turn(start, p as int) < count
            &&& keys[p as int] is Some
            &&& forall|i: int|
                0 <= i < NPROC && turn(start, i) < count && keys[i] is Some ==> precedes(
                    keys,
                    start,
                    p as int,
                    i,
                )
        },
    }
}

/// Slot `p` is chosen over slot `i`, or is slot `i`.
pub open spec fn precedes(keys: Seq<Option<int>>, start: int, p: int, i: int) -> bool {
    keys[p]->0 < keys[i]->0 || (keys[p]->0 == keys[i]->0 && turn(start, p) <= turn(start, i))
}

/// The slot that a scan from `start` visits after `j` others.
pub fn scan_slot(start: usize, j: usize) -> (i: usize)
    requires
        start < NPROC,
        j < NPROC,
    ensures
        i < NPROC,
        i == (start + j) % (NPROC as int),
        turn(start as int, i as int) == j,
{
    (start + j) % NPROC
}

/// The least key seen so far, and where.
pub struct Best {
    pub pick: Option<usize>,
    pub key: u64,
}

impl Best {
    /// The state of a scan that has visited `count` slots.
    pub open spec fn after(&self, keys: Seq<Option<int>>, start: int, count: int) -> bool {
        &&& picks_least_of(keys, start, count, self.pick)
        &&& self.key == match self.pick {
            Some(p) => keys[p as int]->0,
            None => u64::MAX as int,
        }
    }

    pub fn new() -> (best: Self)
        ensures
            forall|keys: Seq<Option<int>>, start: int| #[trigger] best.after(keys, start, 0),
    {
        Best { pick: None, key: u64::MAX }
    }

    /// Takes slot `i` into account.
    pub fn offer(&mut self, i: usize, key: u64)
        ensures
            *final(self) == old(self).offered(i, key),
    {
        if key < self.key {
            self.key = key;
            self.pick = Some(i);
        }
    }

    /// What `offer` leaves. A key at the top of its range never wins.
    pub open spec fn offered(self, i: usize, key: u64) -> Best {
        if key < self.key {
            Best { pick: Some(i), key }
        } else {
            self
        }
    }
}

/// A scan visits different slots at different times.
pub proof fn lemma_turn_injective(start: int)
    requires
        0 <= start < NPROC,
    ensures
        forall|i: int, k: int|
            0 <= i < NPROC && 0 <= k < NPROC && #[trigger] turn(start, i) == #[trigger] turn(
                start,
                k,
            ) ==> i == k,
        forall|i: int| 0 <= i < NPROC ==> 0 <= #[trigger] turn(start, i) < NPROC,
{
}

/// A scan that visits slot `i` and offers it.
pub proof fn lemma_offer(
    best: Best,
    keys: Seq<Option<int>>,
    start: int,
    count: int,
    i: usize,
    key: u64,
)
    requires
        best.after(keys, start, count),
        i < NPROC,
        0 <= start < NPROC,
        turn(start, i as int) == count,
        keys[i as int] == if key < u64::MAX {
            Some(key as int)
        } else {
            None
        },
    ensures
        best.offered(i, key).after(keys, start, count + 1),
{
    lemma_turn_injective(start);
    let next = best.offered(i, key);
    match next.pick {
        None => {},
        Some(p) => {
            assert forall|k: int|
                0 <= k < NPROC && turn(start, k) < count + 1 && keys[k] is Some implies precedes(
                keys,
                start,
                p as int,
                k,
            ) by {
                if k != i && best.pick is Some {
                    assert(precedes(keys, start, best.pick->0 as int, k));
                }
            }
        },
    }
}

/// A scan that visits slot `i` without offering it.
pub proof fn lemma_skip(best: Best, keys: Seq<Option<int>>, start: int, count: int, i: int)
    requires
        best.after(keys, start, count),
        0 <= i < NPROC,
        0 <= start < NPROC,
        turn(start, i) == count,
        keys[i] is None,
    ensures
        best.after(keys, start, count + 1),
{
    lemma_turn_injective(start);
}

/// A scan of all slots has at most one outcome.
pub proof fn lemma_pick_unique(
    keys: Seq<Option<int>>,
    start: int,
    a: Option<usize>,
    b: Option<usize>,
)
    requires
        0 <= start < NPROC,
        picks_least(keys, start, a),
        picks_least(keys, start, b),
    ensures
        a == b,
{
    lemma_turn_injective(start);
    if a is Some && b is Some {
        assert(precedes(keys, start, a->0 as int, b->0 as int));
        assert(precedes(keys, start, b->0 as int, a->0 as int));
    }
}

/// A slot that competes with the same key as the pick and has to wait comes
/// sooner in the next scan.
pub proof fn lemma_equal_comes_closer(
    keys: Seq<Option<int>>,
    start: int,
    pick: usize,
    q: int,
    next: int,
)
    requires
        0 <= start < NPROC,
        picks_least(keys, start, Some(pick)),
        0 <= q < NPROC,
        keys[q] == keys[pick as int],
        pick != q,
        next == (pick + 1) % (NPROC as int),
    ensures
        turn(next, q) < turn(start, q),
        0 <= turn(next, q),
{
    lemma_turn_injective(start);
    assert(precedes(keys, start, pick as int, q));
    assert(turn(start, pick as int) < turn(start, q));
    assert(turn(next, q) == turn(start, q) - turn(start, pick as int) - 1);
}

/// One of a series of scans.
pub struct Scan {
    pub keys: Seq<Option<int>>,
    pub start: int,
    pub pick: usize,
}

/// Each scan starts after the slot that the one before it picked.
pub open spec fn is_rotation(run: Seq<Scan>) -> bool {
    &&& forall|t: int|
        0 <= t < run.len() ==> 0 <= (#[trigger] run[t]).start < NPROC && picks_least(
            run[t].keys,
            run[t].start,
            Some(run[t].pick),
        )
    &&& forall|t: int|
        0 < t < run.len() ==> (#[trigger] run[t]).start == (run[t - 1].pick + 1) % (NPROC as int)
}

/// In every scan slot `q` competes with the key of the pick.
pub open spec fn is_equal_throughout(run: Seq<Scan>, q: int) -> bool {
    forall|t: int|
        0 <= t < run.len() ==> (#[trigger] run[t]).keys[q] == run[t].keys[run[t].pick as int]
}

/// Round robin among equals: a slot that competes with the key of the pick in
/// every scan is picked after at most as many others as precede it in the first.
pub proof fn lemma_equal_has_its_turn(run: Seq<Scan>, q: int, t: int)
    requires
        is_rotation(run),
        is_equal_throughout(run, q),
        0 <= q < NPROC,
        0 <= t < run.len(),
        t + turn(run[t].start, q) < run.len(),
    ensures
        exists|u: int|
            t <= u <= t + turn(run[t].start, q) && (#[trigger] run[u]).pick == q,
    decreases turn(run[t].start, q),
{
    let now = run[t];
    if now.pick == q {
        assert(run[t].pick == q);
    } else {
        lemma_turn_injective(now.start);
        assert(now.keys[q] == now.keys[now.pick as int]);
        lemma_equal_comes_closer(
            now.keys,
            now.start,
            now.pick,
            q,
            (now.pick + 1) % (NPROC as int),
        );
        assert(run[t + 1].start == (run[t].pick + 1) % (NPROC as int));
        lemma_equal_has_its_turn(run, q, t + 1);
        let u = choose|u: int|
            t + 1 <= u <= t + 1 + turn(run[t + 1].start, q) && (#[trigger] run[u]).pick == q;
        assert(run[u].pick == q);
    }
}

} // verus!
