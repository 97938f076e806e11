//! Laws of what the children of a workload do and measure.

use crate::bench::child::{percentile_of, Sleeper};
use crate::bench::delays::{ascending, lemma_sorted_unique, percentile, rank, sum};
use crate::bench::workload::{
    ambiguous_sleep, ambiguous_work, bursty_sleep, bursty_work, flip_work, in_sleep_phase,
};
use vstd::prelude::*;

verus! {

/// Of any four sleeps in a row of a bursty worker one lasts three ticks and
/// three last one, the long one being every fourth, counted from a cycle that
/// the number of the child shifts.
pub proof fn lemma_bursty_sleeps(cycle: usize, child: usize, a: usize, b: usize, c: usize, d: usize)
    requires
        cycle + child + 3 <= usize::MAX,
        call_ensures(bursty_sleep, (cycle, child), a),
        call_ensures(bursty_sleep, ((cycle + 1) as usize, child), b),
        call_ensures(bursty_sleep, ((cycle + 2) as usize, child), c),
        call_ensures(bursty_sleep, ((cycle + 3) as usize, child), d),
    ensures
        a + b + c + d == 6,
        a == 1 || a == 3,
        b == 1 || b == 3,
        c == 1 || c == 3,
        a == 3 <==> (cycle + child) % 4 == 0,
{
}

/// Of any five bursts in a row of a bursty worker one is long, two are short
/// and two in between, the long one first.
pub proof fn lemma_bursty_bursts(
    cycle: usize,
    child: usize,
    a: usize,
    b: usize,
    c: usize,
    d: usize,
    e: usize,
)
    requires
        cycle + child + 4 <= usize::MAX,
        call_ensures(bursty_work, (cycle, child), a),
        call_ensures(bursty_work, ((cycle + 1) as usize, child), b),
        call_ensures(bursty_work, ((cycle + 2) as usize, child), c),
        call_ensures(bursty_work, ((cycle + 3) as usize, child), d),
        call_ensures(bursty_work, ((cycle + 4) as usize, child), e),
    ensures
        a + b + c + d + e == 470_000,
        a == 250_000 || a == 30_000 || a == 80_000,
        a == 250_000 ==> b == 30_000 && c == 30_000 && d == 80_000 && e == 80_000,
        a == 250_000 <==> (cycle + child) % 5 == 0,
{
}

/// Of any three sleeps in a row of an ambiguous worker one lasts one tick and
/// two last two; of any five bursts in a row one is long.
pub proof fn lemma_ambiguous_worker(
    cycle: usize,
    child: usize,
    a: usize,
    b: usize,
    c: usize,
    v: usize,
    w: usize,
    x: usize,
    y: usize,
    z: usize,
)
    requires
        cycle + child + 4 <= usize::MAX,
        call_ensures(ambiguous_sleep, (cycle, child), a),
        call_ensures(ambiguous_sleep, ((cycle + 1) as usize, child), b),
        call_ensures(ambiguous_sleep, ((cycle + 2) as usize, child), c),
        call_ensures(ambiguous_work, (cycle, child), v),
        call_ensures(ambiguous_work, ((cycle + 1) as usize, child), w),
        call_ensures(ambiguous_work, ((cycle + 2) as usize, child), x),
        call_ensures(ambiguous_work, ((cycle + 3) as usize, child), y),
        call_ensures(ambiguous_work, ((cycle + 4) as usize, child), z),
    ensures
        a + b + c == 5,
        a == 1 || a == 2,
        a == 1 <==> (cycle + child) % 3 == 0,
        v + w + x + y + z == 480_000,
        v == 45_000 || v == 300_000,
        v == 300_000 <==> (cycle + child) % 5 == 0,
{
}

/// A worker that changes its behaviour begins with sleeps, and is in the other
/// phase after each further stretch; it does little at a time between sleeps.
pub proof fn lemma_phases_alternate(
    start: usize,
    now: usize,
    len: usize,
    a: bool,
    b: bool,
    x: usize,
    y: usize,
)
    requires
        start <= now,
        len > 0,
        now + len <= usize::MAX,
        call_ensures(in_sleep_phase, (start, now, len), a),
        call_ensures(in_sleep_phase, (start, (now + len) as usize, len), b),
        call_ensures(flip_work, (true,), x),
        call_ensures(flip_work, (false,), y),
    ensures
        a != b,
        now < start + len ==> a,
        x == 30_000,
        y == 250_000,
{
    let t = now - start;
    let l = len as int;
    assert((t + l) / l == t / l + 1) by (nonlinear_arith)
        requires
            l > 0,
    ;
    assert(0 <= t < l ==> t / l == 0) by (nonlinear_arith)
        requires
            l > 0,
    ;
}

/// The rank of a percentile leaves that share of the values below it, as far as
/// there are values.
pub proof fn lemma_rank_leaves_share(n: int, percent: int)
    requires
        n > 0,
        0 <= percent <= 100,
    ensures
        0 <= rank(n, percent) < n,
        rank(n, percent) * 100 <= n * percent,
        percent < 100 && n * percent < (n - 1) * 100 ==> n * percent < (rank(n, percent) + 1) * 100,
        n * percent >= (n - 1) * 100 ==> rank(n, percent) == n - 1,
        percent == 0 ==> rank(n, percent) == 0,
        percent == 100 ==> rank(n, percent) == n - 1,
{
    assert(n * percent >= 0) by (nonlinear_arith)
        requires
            n > 0,
            percent >= 0,
    ;
}

/// A percentile depends on which delays there were, not on their order, is one
/// of them, and has the rank of the percentile in ascending order.
pub proof fn lemma_percentile_ignores_order(
    delays: Seq<usize>,
    shuffled: Seq<usize>,
    sorted: Seq<usize>,
    percent: int,
)
    requires
        delays.len() > 0,
        0 <= percent <= 100,
        delays.to_multiset() == shuffled.to_multiset(),
        ascending(sorted),
        sorted.to_multiset() == delays.to_multiset(),
    ensures
        percentile_of(delays, percent) == percentile_of(shuffled, percent),
        percentile_of(delays, percent) == sorted[rank(delays.len() as int, percent)],
        delays.contains(percentile_of(delays, percent)),
{
    delays.to_multiset_ensures();
    shuffled.to_multiset_ensures();
    sorted.to_multiset_ensures();
    let chosen = choose|s: Seq<usize>| ascending(s) && s.to_multiset() == delays.to_multiset();
    assert(ascending(sorted) && sorted.to_multiset() == delays.to_multiset());
    lemma_sorted_unique(chosen, sorted);
    lemma_rank_leaves_share(delays.len() as int, percent);
    assert(delays.len() == sorted.len());
    assert(delays.len() == shuffled.len());
    let p = sorted[rank(delays.len() as int, percent)];
    assert(sorted.contains(p));
    assert(sorted.to_multiset().count(p) > 0);
}

/// `percentile`, of a sleeper or of delays in order, is the delay at the rank of
/// the percentile in ascending order.
pub proof fn lemma_percentile_has_its_rank<const N: usize>(
    s: Sleeper<N>,
    sorted: [usize; N],
    percent: usize,
    a: usize,
    b: usize,
)
    requires
        0 < N <= 0x10_0000,
        percent <= 100,
        ascending(sorted@),
        sorted@.to_multiset() == s.log.delays@.to_multiset(),
        call_ensures(Sleeper::<N>::percentile, (&s, percent), a),
        call_ensures(percentile::<N>, (&sorted, percent), b),
    ensures
        a == b,
        s.log.delays@.contains(a),
        percent == 100 ==> a == sorted@[N - 1],
        percent == 0 ==> a == sorted@[0],
        a == sorted@[rank(N as int, percent as int)],
{
    lemma_percentile_ignores_order(s.log.delays@, s.log.delays@, sorted@, percent as int);
    lemma_rank_leaves_share(N as int, percent as int);
}

/// The total of a log is that of its delays: each further delay adds itself.
pub proof fn lemma_each_delay_counts_once(delays: Seq<usize>, delay: usize)
    ensures
        sum(delays.push(delay), delays.len() + 1) == sum(delays, delays.len()) + delay,
        sum(delays, 0) == 0,
{
    lemma_prefix_counts(delays, delay, delays.len());
}

proof fn lemma_prefix_counts(delays: Seq<usize>, delay: usize, n: nat)
    requires
        n <= delays.len(),
    ensures
        sum(delays.push(delay), n) == sum(delays, n),
    decreases n,
{
    if n > 0 {
        lemma_prefix_counts(delays, delay, (n - 1) as nat);
    }
}

} // verus!
