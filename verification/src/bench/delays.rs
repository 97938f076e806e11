//! Wakeup delays and what is reported of them.

use vstd::prelude::*;

verus! {

/// `items` is in ascending order.
pub open spec fn ascending(items: Seq<usize>) -> bool {
    forall|i: int, j: int| 0 <= i <= j < items.len() ==> items[i] <= items[j]
}

/// The rank of a percentile among `n` values.
pub open spec fn rank(n: int, percent: int) -> int {
    if n * percent / 100 < n - 1 {
        n * percent / 100
    } else {
        n - 1
    }
}

/// The sum of the first `n` items.
pub open spec fn sum(items: Seq<usize>, n: nat) -> nat
    decreases n,
{
    if n == 0 {
        0
    } else {
        sum(items, (n - 1) as nat) + items[n - 1] as nat
    }
}

/// `value` is one of `items`.
pub fn contains<const N: usize>(items: &[usize; N], value: usize) -> (found: bool)
    ensures
        found == items@.contains(value),
{
    let mut i: usize = 0;
    while i < N
        invariant
            i <= N,
            forall|k: int| 0 <= k < i ==> items@[k] != value,
        decreases N - i,
    {
        if items[i] == value {
            assert(items@[i as int] == value);
            return true;
        }
        i = i + 1;
    }
    false
}

/// Sorts in ascending order, by insertion.
pub fn sort<const N: usize>(items: &mut [usize; N])
    ensures
        ascending(final(items)@),
        final(items)@.to_multiset() == old(items)@.to_multiset(),
{
    let mut i: usize = 1;
    while i < N
        invariant
            1 <= i,
            N >= 1 ==> i <= N,
            forall|a: int, b: int|
                0 <= a <= b < i && b < N ==> items@[a] <= items@[b],
            items@.to_multiset() == old(items)@.to_multiset(),
        decreases N - i,
    {
        let mut j: usize = i;
        while j > 0 && items[j - 1] > items[j]
            invariant
                j <= i < N,
                forall|a: int, b: int|
                    0 <= a <= b <= i && a != j && b != j ==> items@[a] <= items@[b],
                forall|b: int| j < b <= i ==> items@[j as int] <= items@[b],
                items@.to_multiset() == old(items)@.to_multiset(),
            decreases j,
        {
            let ghost before = items@;
            let upper: usize = items[j - 1];
            items[j - 1] = items[j];
            items[j] = upper;
            proof {
                lemma_swap_keeps_multiset(before, j - 1, j as int);
                assert(items@ =~= before.update(j - 1, before[j as int]).update(
                    j as int,
                    before[j - 1],
                ));
            }
            j = j - 1;
        }
        i = i + 1;
    }
}

/// Exchanging two items keeps the same items.
proof fn lemma_swap_keeps_multiset(s: Seq<usize>, a: int, b: int)
    requires
        0 <= a < s.len(),
        0 <= b < s.len(),
    ensures
        s.update(a, s[b]).update(b, s[a]).to_multiset() == s.to_multiset(),
{
    broadcast use vstd::seq_lib::group_to_multiset_ensures;

    let t = s.update(a, s[b]);
    assert(t.update(b, s[a]).to_multiset() =~= s.to_multiset());
}

/// By how much a sleep from `before` to `after` exceeded the `requested` ticks.
pub fn overshoot(before: usize, after: usize, requested: usize) -> (r: usize)
    requires
        before <= after,
    ensures
        r == (if after - before > requested {
            after - before - requested
        } else {
            0
        }),
{
    let actual: usize = after - before;
    if actual > requested {
        actual - requested
    } else {
        0
    }
}

/// By how much `after` is later than `requested` ticks after `before`.
pub fn lateness(before: usize, after: usize, requested: usize) -> (r: usize)
    requires
        before + requested <= usize::MAX,
    ensures
        r == (if after > before + requested {
            after - before - requested
        } else {
            0
        }),
{
    if after > before + requested {
        after - before - requested
    } else {
        0
    }
}

/// The mean, rounded down. Nothing measured counts as one measurement.
pub fn mean(total: usize, count: usize) -> (r: usize)
    ensures
        r == total / (if count > 1 {
            count
        } else {
            1
        }),
{
    total / if count > 1 { count } else { 1 }
}

/// The mean in hundredths, rounded down.
pub fn mean_hundredths(total: usize, count: usize) -> (r: usize)
    requires
        total * 100 <= usize::MAX,
    ensures
        r == total * 100 / (if count > 1 {
            count as int
        } else {
            1
        }),
{
    (total * 100) / if count > 1 { count } else { 1 }
}

/// A percentile of values in ascending order.
pub fn percentile<const N: usize>(sorted: &[usize; N], percent: usize) -> (r: usize)
    requires
        N > 0,
        N * percent <= usize::MAX,
    ensures
        r == sorted@[rank(N as int, percent as int)],
{
    let at: usize = N * percent / 100;
    proof {
        assert(N * percent >= 0) by (nonlinear_arith);
    }
    sorted[if at < N - 1 {
        at
    } else {
        N - 1
    }]
}

/// The delays of up to `N` wakeups.
#[derive(Clone, Copy, Debug)]
pub struct DelayLog<const N: usize> {
    pub delays: [usize; N],
    pub total: usize,
    pub max: usize,
}

impl<const N: usize> DelayLog<N> {
    /// `total` and `max` are those of the delays.
    pub open spec fn wf(self) -> bool {
        &&& self.total == sum(self.delays@, N as nat)
        &&& forall|i: int| 0 <= i < N ==> #[trigger] self.delays@[i] <= self.max
        &&& self.max == 0 || exists|i: int| 0 <= i < N && #[trigger] self.delays@[i] == self.max
    }

    pub fn new() -> (r: Self)
        ensures
            r.wf(),
            r.total == 0,
            r.max == 0,
            forall|i: int| 0 <= i < N ==> #[trigger] r.delays@[i] == 0,
    {
        let r: Self = DelayLog { delays: [0;N], total: 0, max: 0 };
        proof {
            lemma_sum_of_zeros(r.delays@, N as nat);
        }
        r
    }

    /// Records the delay of wakeup `i`.
    pub fn record(&mut self, i: usize, delay: usize)
        requires
            i < N,
            old(self).total + delay <= usize::MAX,
        ensures
            final(self).delays@ == old(self).delays@.update(i as int, delay),
            final(self).total == old(self).total + delay,
            final(self).max == (if delay > old(self).max {
                delay
            } else {
                old(self).max
            }),
            old(self).wf() && old(self).delays@[i as int] == 0 ==> final(self).wf(),
    {
        let ghost before = self.delays@;
        self.delays[i] = delay;
        self.total = self.total + delay;
        if delay > self.max {
            self.max = delay;
        }
        proof {
            lemma_sum_update(before, i as int, delay, N as nat);
            if old(self).wf() && before[i as int] == 0 {
                assert(self.delays@[i as int] == delay);
                if self.max != 0 && delay <= old(self).max {
                    let k = choose|k: int| 0 <= k < N && #[trigger] before[k] == old(self).max;
                    assert(k != i || delay == old(self).max);
                    assert(self.delays@[k] == before[k] || k == i);
                    if k != i {
                        assert(self.delays@[k] == self.max);
                    }
                }
            }
        }
    }

    /// Puts the delays in ascending order.
    pub fn settle(&mut self)
        ensures
            ascending(final(self).delays@),
            final(self).delays@.to_multiset() == old(self).delays@.to_multiset(),
            final(self).total == old(self).total,
            final(self).max == old(self).max,
    {
        sort(&mut self.delays);
    }
}

proof fn lemma_sum_of_zeros(items: Seq<usize>, n: nat)
    requires
        n <= items.len(),
        forall|i: int| 0 <= i < items.len() ==> items[i] == 0,
    ensures
        sum(items, n) == 0,
    decreases n,
{
    if n > 0 {
        lemma_sum_of_zeros(items, (n - 1) as nat);
    }
}

proof fn lemma_sum_update(items: Seq<usize>, i: int, value: usize, n: nat)
    requires
        0 <= i < items.len(),
        n <= items.len(),
    ensures
        sum(items.update(i, value), n) == sum(items, n) + (if i < n {
            value - items[i]
        } else {
            0
        }),
    decreases n,
{
    if n > 0 {
        lemma_sum_update(items, i, value, (n - 1) as nat);
    }
}

/// Once the delays are in order, every one up to the rank of a percentile is
/// at most that percentile and every one after it at least.
pub proof fn lemma_percentile_splits(items: Seq<usize>, percent: int, k: int)
    requires
        ascending(items),
        items.len() > 0,
        0 <= percent,
        0 <= k < items.len(),
    ensures
        0 <= rank(items.len() as int, percent) < items.len(),
        k <= rank(items.len() as int, percent) ==> items[k] <= items[rank(
            items.len() as int,
            percent,
        )],
        k >= rank(items.len() as int, percent) ==> items[k] >= items[rank(
            items.len() as int,
            percent,
        )],
{
    let n = items.len() as int;
    assert(n * percent >= 0) by (nonlinear_arith)
        requires
            n > 0,
            percent >= 0,
    ;
}

/// A higher percentile is no smaller, and the maximum is the largest of all.
pub proof fn lemma_percentiles_ordered(items: Seq<usize>, p: int, q: int)
    requires
        ascending(items),
        items.len() > 0,
        0 <= p <= q,
    ensures
        items[rank(items.len() as int, p)] <= items[rank(items.len() as int, q)] <= items.last(),
{
    let n = items.len() as int;
    assert(0 <= n * p <= n * q) by (nonlinear_arith)
        requires
            n > 0,
            0 <= p <= q,
    ;
}

/// Sorting has only one outcome.
pub proof fn lemma_sorted_unique(a: Seq<usize>, b: Seq<usize>)
    requires
        ascending(a),
        ascending(b),
        a.to_multiset() == b.to_multiset(),
    ensures
        a == b,
{
    vstd::seq_lib::lemma_sorted_unique(a, b, |x: usize, y: usize| x <= y);
}

} // verus!
