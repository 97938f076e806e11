//! Laws of the network that both learners score with.

use crate::arith::sat_i64;
use crate::laws::arith::lemma_truncation_keeps_order;
use crate::prng::{in_range, state_after, xorshift};
use crate::scheduler::network::{
    accumulate, draw, draws_before, draws_per_perturbation, perturbed, reverted, row_perturbed,
    row_reverted, weighted, Network, HIDDEN_SIZE, SCALE,
};
use vstd::prelude::*;

verus! {

proof fn lemma_sums_fit(w: Seq<i64>, x: Seq<i64>, bias: i64, n: nat)
    ensures
        i64::MIN <= accumulate(w, x, bias, n) <= i64::MAX,
    decreases n,
{
    if n > 0 {
        lemma_sums_fit(w, x, bias, (n - 1) as nat);
    }
}

proof fn lemma_sums_keep_order(w: Seq<i64>, x: Seq<i64>, y: Seq<i64>, bias: i64, n: nat)
    requires
        forall|i: int| 0 <= i < n ==> weighted(w[i], #[trigger] x[i]) <= weighted(w[i], y[i]),
    ensures
        accumulate(w, x, bias, n) <= accumulate(w, y, bias, n),
    decreases n,
{
    if n > 0 {
        lemma_sums_keep_order(w, x, y, bias, (n - 1) as nat);
        assert(weighted(w[n - 1], x[n - 1]) <= weighted(w[n - 1], y[n - 1]));
    }
}

/// More of an input contributes more through a positive weight, less through a
/// negative one, and nothing through a weight of 0.
pub proof fn lemma_weight_gives_direction(w: i64, x: i64, y: i64)
    requires
        x <= y,
    ensures
        w >= 0 ==> weighted(w, x) <= weighted(w, y),
        w <= 0 ==> weighted(w, x) >= weighted(w, y),
        w == 0 ==> weighted(w, x) == 0,
{
    assert(SCALE == 1024);
    if w >= 0 {
        assert(w * x <= w * y) by (nonlinear_arith)
            requires
                w >= 0,
                x <= y,
        ;
        lemma_truncation_keeps_order(sat_i64(w * x), sat_i64(w * y));
    }
    if w <= 0 {
        assert(w * x >= w * y) by (nonlinear_arith)
            requires
                w <= 0,
                x <= y,
        ;
        lemma_truncation_keeps_order(sat_i64(w * y), sat_i64(w * x));
    }
    if w == 0 {
        assert(w * x == 0) by (nonlinear_arith)
            requires
                w == 0,
        ;
    }
}

/// Two input vectors that differ at most in input `k`, which is no smaller in
/// the second.
pub open spec fn raised(x: Seq<i64>, y: Seq<i64>, k: int) -> bool {
    &&& x.len() == y.len()
    &&& 0 <= k < x.len()
    &&& x[k] <= y[k]
    &&& forall|i: int| 0 <= i < x.len() && i != k ==> #[trigger] x[i] == y[i]
}

proof fn lemma_neuron_follows_input<const F: usize>(
    net: Network<F>,
    x: Seq<i64>,
    y: Seq<i64>,
    k: int,
    j: int,
)
    requires
        raised(x, y, k),
        x.len() == F,
        0 <= j < HIDDEN_SIZE,
    ensures
        net.w1@[j]@[k] >= 0 ==> 0 <= net.hidden(x)[j] <= net.hidden(y)[j],
        net.w1@[j]@[k] <= 0 ==> 0 <= net.hidden(y)[j] <= net.hidden(x)[j],
{
    let w = net.w1@[j]@;
    lemma_sums_fit(w, x, net.b1@[j], F as nat);
    lemma_sums_fit(w, y, net.b1@[j], F as nat);
    lemma_weight_gives_direction(w[k], x[k], y[k]);
    if w[k] >= 0 {
        lemma_sums_keep_order(w, x, y, net.b1@[j], F as nat);
    }
    if w[k] <= 0 {
        lemma_sums_keep_order(w, y, x, net.b1@[j], F as nat);
    }
}

/// The score follows an input. If every path from the input to the output has
/// weights of one sign, more of the input never lowers the score; if every path
/// has weights of opposite signs, more of it never raises the score.
pub proof fn lemma_score_follows_input<const F: usize>(
    net: Network<F>,
    x: Seq<i64>,
    y: Seq<i64>,
    k: int,
)
    requires
        raised(x, y, k),
        x.len() == F,
    ensures
        (forall|j: int|
            0 <= j < HIDDEN_SIZE ==> (net.w1@[j]@[k] >= 0 && net.w2@[j] >= 0) || (
            net.w1@[j]@[k] <= 0 && #[trigger] net.w2@[j] <= 0)) ==> net.score(x) <= net.score(y),
        (forall|j: int|
            0 <= j < HIDDEN_SIZE ==> (net.w1@[j]@[k] >= 0 && net.w2@[j] <= 0) || (
            net.w1@[j]@[k] <= 0 && #[trigger] net.w2@[j] >= 0)) ==> net.score(x) >= net.score(y),
{
    let a = net.hidden(x);
    let b = net.hidden(y);
    if forall|j: int|
        0 <= j < HIDDEN_SIZE ==> (net.w1@[j]@[k] >= 0 && net.w2@[j] >= 0) || (net.w1@[j]@[k] <= 0
            && #[trigger] net.w2@[j] <= 0) {
        assert forall|j: int| 0 <= j < HIDDEN_SIZE implies weighted(
            net.w2@[j],
            #[trigger] a[j],
        ) <= weighted(net.w2@[j], b[j]) by {
            lemma_neuron_follows_input(net, x, y, k, j);
            if net.w1@[j]@[k] >= 0 && net.w2@[j] >= 0 {
                lemma_weight_gives_direction(net.w2@[j], a[j], b[j]);
            } else {
                lemma_weight_gives_direction(net.w2@[j], b[j], a[j]);
            }
        }
        lemma_sums_keep_order(net.w2@, a, b, net.b2, HIDDEN_SIZE as nat);
    }
    if forall|j: int|
        0 <= j < HIDDEN_SIZE ==> (net.w1@[j]@[k] >= 0 && net.w2@[j] <= 0) || (net.w1@[j]@[k] <= 0
            && #[trigger] net.w2@[j] >= 0) {
        assert forall|j: int| 0 <= j < HIDDEN_SIZE implies weighted(
            net.w2@[j],
            #[trigger] b[j],
        ) <= weighted(net.w2@[j], a[j]) by {
            lemma_neuron_follows_input(net, x, y, k, j);
            if net.w1@[j]@[k] >= 0 && net.w2@[j] <= 0 {
                lemma_weight_gives_direction(net.w2@[j], a[j], b[j]);
            } else {
                lemma_weight_gives_direction(net.w2@[j], b[j], a[j]);
            }
        }
        lemma_sums_keep_order(net.w2@, b, a, net.b2, HIDDEN_SIZE as nat);
    }
}

proof fn lemma_only_one_counts(w: Seq<i64>, x: Seq<i64>, bias: i64, k: int, n: nat)
    requires
        forall|i: int| 0 <= i < n && i != k ==> #[trigger] w[i] == 0,
        bias == 0,
    ensures
        accumulate(w, x, bias, n) == if 0 <= k < n {
            sat_i64(weighted(w[k], x[k]))
        } else {
            0
        },
    decreases n,
{
    if n > 0 {
        lemma_only_one_counts(w, x, bias, k, (n - 1) as nat);
        if n - 1 != k {
            assert(w[n - 1] == 0);
            lemma_weight_gives_direction(w[n - 1], x[n - 1], x[n - 1]);
        }
    }
}

/// A path carries its input to the output. In a network in which only neuron
/// `j` reaches the output, and only input `k` reaches that neuron, the neuron
/// holds the product of weight and input in fixed point, or 0 where that is
/// negative, and the score is what the output weight makes of it, rounded
/// toward zero. So every neuron and every input counts.
pub proof fn lemma_path_carries_input<const F: usize>(
    net: Network<F>,
    x: Seq<i64>,
    j: int,
    k: int,
)
    requires
        x.len() == F,
        0 <= j < HIDDEN_SIZE,
        0 <= k < F,
        forall|i: int| 0 <= i < HIDDEN_SIZE && i != j ==> #[trigger] net.w2@[i] == 0,
        forall|i: int| 0 <= i < F && i != k ==> #[trigger] net.w1@[j]@[i] == 0,
        net.b1@[j] == 0,
        net.b2 == 0,
        -0x8000_0000 <= net.w1@[j]@[k] <= 0x7fff_ffff,
        -0x10_0000 <= x[k] <= 0x10_0000,
        -0x10_0000 <= net.w2@[j] <= 0x10_0000,
    ensures
        ({
            let h = net.hidden(x)[j];
            let p = net.w1@[j]@[k] * x[k];
            let s = net.score(x);
            &&& p < 1024 ==> h == 0
            &&& p >= 1024 ==> h * 1024 <= p < h * 1024 + 1024
            &&& net.w2@[j] >= 0 ==> s * 1024 <= net.w2@[j] * h < s * 1024 + 1024
            &&& net.w2@[j] <= 0 ==> s * 1024 - 1024 < net.w2@[j] * h <= s * 1024
        }),
{
    assert(SCALE == 1024);
    let w = net.w1@[j]@[k] as int;
    let v = x[k] as int;
    let u = net.w2@[j] as int;
    let h = net.hidden(x)[j];
    lemma_only_one_counts(net.w1@[j]@, x, net.b1@[j], k, F as nat);
    assert(-0x8_0000_0000_0000 <= w * v <= 0x8_0000_0000_0000) by (nonlinear_arith)
        requires
            -0x8000_0000 <= w <= 0x7fff_ffff,
            -0x10_0000 <= v <= 0x10_0000,
    ;
    assert(0 <= h <= 0x200_0000_0000);
    lemma_only_one_counts(net.w2@, net.hidden(x), net.b2, j, HIDDEN_SIZE as nat);
    assert(-0x2000_0000_0000_0000 <= u * h <= 0x2000_0000_0000_0000) by (nonlinear_arith)
        requires
            -0x10_0000 <= u <= 0x10_0000,
            0 <= h <= 0x200_0000_0000,
    ;
    assert(u >= 0 ==> u * h >= 0) by (nonlinear_arith)
        requires
            h >= 0,
    ;
    assert(u <= 0 ==> u * h <= 0) by (nonlinear_arith)
        requires
            h >= 0,
    ;
}

/// A draw lies between its bounds, both of which can come up, and follows the
/// raw draw modulo the number of values between them.
pub proof fn lemma_draws_cover_range(raw: u64, min: int, max: int)
    requires
        min <= max,
    ensures
        min <= in_range(raw, min, max) <= max,
        (in_range(raw, min, max) - min - raw) % (max - min + 1) == 0,
        raw <= max - min ==> in_range(raw, min, max) == min + raw,
{
    let span = max - min + 1;
    assert(0 <= (raw as int) % span < span) by (nonlinear_arith)
        requires
            span > 0,
    ;
    let q = (raw as int) / span;
    assert(raw as int == span * q + (raw as int) % span) by (nonlinear_arith)
        requires
            span > 0,
            q == (raw as int) / span,
    ;
    let x = in_range(raw, min, max) - min - raw;
    assert(x == span * (-q)) by (nonlinear_arith)
        requires
            x == -(span * q),
    ;
    assert((span * (-q)) % span == 0) by {
        vstd::arithmetic::div_mod::lemma_mod_multiples_basic(-q, span);
        assert(span * (-q) == (-q) * span) by (nonlinear_arith);
    }
    if raw <= max - min {
        vstd::arithmetic::div_mod::lemma_small_mod(raw as nat, span as nat);
    }
}

/// A generator goes on from where it is: to draw some numbers and then some
/// more leads to the same state as to draw them all at once.
pub proof fn lemma_generator_goes_on(s: u64, n: nat, m: nat)
    ensures
        state_after(s, 0) == s,
        state_after(s, 1) == xorshift(s),
        state_after(state_after(s, n), m) == state_after(s, n + m),
    decreases m,
{
    reveal_with_fuel(state_after, 2);
    if m > 0 {
        lemma_generator_goes_on(s, n, (m - 1) as nat);
    }
}

/// A round of the generator is linear over the bits of the state.
pub proof fn lemma_generator_is_linear(x: u64, y: u64)
    ensures
        xorshift(x ^ y) == xorshift(x) ^ xorshift(y),
{
    assert(({
        let a = (x ^ y) ^ ((x ^ y) << 13);
        let b = a ^ (a >> 7);
        b ^ (b << 17)
    }) == ({
        let a = x ^ (x << 13);
        let b = a ^ (a >> 7);
        b ^ (b << 17)
    }) ^ ({
        let a = y ^ (y << 13);
        let b = a ^ (a >> 7);
        b ^ (b << 17)
    })) by (bit_vector);
}

/// No two weights share a draw: the neurons take theirs one after the other, as
/// many as each has weights, and the bias of the output takes the last.
pub proof fn lemma_draws_are_shared_by_none(j: int, features: int)
    requires
        0 <= j < 8,
        features >= 0,
    ensures
        draws_before(0, features) == 0,
        draws_before(j + 1, features) == draws_before(j, features) + features + 2,
        draws_per_perturbation(features) == draws_before(8, features) + 1,
{
    assert((j + 1) * (features + 2) == j * (features + 2) + features + 2) by (nonlinear_arith);
    assert(j * (features + 2) >= 0) by (nonlinear_arith)
        requires
            j >= 0,
            features >= 0,
    ;
}

/// A perturbation moves every weight by what it records, which is never more
/// than the magnitude, and taking it off again gives every weight back, as long
/// as no weight is near its limits.
pub proof fn lemma_perturbation_is_recorded<const F: usize>(
    pre: Network<F>,
    post: Network<F>,
    back: Network<F>,
    s: u64,
    mag: i64,
    j: int,
    k: int,
)
    requires
        perturbed(pre, post, s, mag),
        reverted(post, back),
        0 <= mag <= 0x1000,
        0 <= j < 8,
        0 <= k < F,
        -0x4000_0000_0000_0000 <= pre.w1@[j]@[k] <= 0x4000_0000_0000_0000,
        -0x4000_0000_0000_0000 <= pre.b1@[j] <= 0x4000_0000_0000_0000,
        -0x4000_0000_0000_0000 <= pre.w2@[j] <= 0x4000_0000_0000_0000,
        -0x4000_0000_0000_0000 <= pre.b2 <= 0x4000_0000_0000_0000,
    ensures
        post.w1@[j]@[k] - pre.w1@[j]@[k] == post.pw1@[j]@[k],
        post.b1@[j] - pre.b1@[j] == post.pb1@[j],
        post.w2@[j] - pre.w2@[j] == post.pw2@[j],
        post.b2 - pre.b2 == post.pb2,
        -mag <= post.pw1@[j]@[k] <= mag,
        -mag <= post.pb1@[j] <= mag,
        -mag <= post.pw2@[j] <= mag,
        -mag <= post.pb2 <= mag,
        back.w1@[j]@[k] == pre.w1@[j]@[k],
        back.b1@[j] == pre.b1@[j],
        back.w2@[j] == pre.w2@[j],
        back.b2 == pre.b2,
        back.pw1@[j]@[k] == 0,
        back.pb1@[j] == 0,
        back.pw2@[j] == 0,
        back.pb2 == 0,
{
    assert(row_perturbed(pre, post, j, s, mag));
    assert(row_reverted(post, back, j));
    let base = draws_before(j, F as int);
    assert(post.pw1@[j]@[k] == draw(s, (base + k) as nat, mag));
    assert(post.w1@[j]@[k] == sat_i64(pre.w1@[j]@[k] + post.pw1@[j]@[k]));
    assert(back.w1@[j]@[k] == sat_i64(post.w1@[j]@[k] - post.pw1@[j]@[k]));
    assert(back.pw1@[j]@[k] == 0);
    lemma_draws_cover_range(state_after(s, (base + k) as nat + 1), -mag as int, mag as int);
    lemma_draws_cover_range(state_after(s, base + F as nat + 1), -mag as int, mag as int);
    lemma_draws_cover_range(state_after(s, base + F as nat + 1 + 1), -mag as int, mag as int);
    lemma_draws_cover_range(
        state_after(s, draws_before(HIDDEN_SIZE as int, F as int) + 1),
        -mag as int,
        mag as int,
    );
}

} // verus!
