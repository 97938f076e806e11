//! A tiny fixed-point neural network that learns by random perturbation.
//!
//! Weights and activations are integers in units of 1/1024. Every operation
//! saturates, so no weight, however far it has drifted, can overflow.

use crate::arith::{
    div_toward_zero, max_int, sat_i64, saturating_add, saturating_mul, saturating_sub,
};
use crate::prng::{in_range, state_after, XorShift64};
use vstd::prelude::*;

verus! {

/// Number of neurons in the hidden layer.
pub const HIDDEN_SIZE: usize = 8;

/// The fixed-point representation of 1.
pub const SCALE: i64 = 1024;

/// One hidden layer over `F` features, and the perturbation that its weights
/// carry at the moment.
#[derive(Clone, Copy, Debug)]
pub struct Network<const F: usize> {
    pub w1: [[i64; F]; HIDDEN_SIZE],
    pub b1: [i64; HIDDEN_SIZE],
    pub w2: [i64; HIDDEN_SIZE],
    pub b2: i64,
    pub pw1: [[i64; F]; HIDDEN_SIZE],
    pub pb1: [i64; HIDDEN_SIZE],
    pub pw2: [i64; HIDDEN_SIZE],
    pub pb2: i64,
}

/// The contribution of input `x` through weight `w`.
pub open spec fn weighted(w: i64, x: i64) -> int {
    div_toward_zero(sat_i64(w * x), SCALE as int)
}

/// `bias` plus the contributions of the first `n` inputs, added in order with
/// saturation at each step.
pub open spec fn accumulate(w: Seq<i64>, x: Seq<i64>, bias: i64, n: nat) -> int
    decreases n,
{
    if n == 0 {
        bias as int
    } else {
        sat_i64(accumulate(w, x, bias, (n - 1) as nat) + weighted(w[n - 1], x[n - 1]))
    }
}

/// Draw number `n` of a generator in state `s`, between `-mag` and `mag`.
pub open spec fn draw(s: u64, n: nat, mag: i64) -> int {
    in_range(state_after(s, n + 1), -mag as int, mag as int)
}

/// The number of draws taken before those of hidden neuron `j`: each neuron
/// takes one per feature, one for its bias and one for its output weight.
pub open spec fn draws_before(j: int, features: int) -> nat {
    (j * (features + 2)) as nat
}

/// Neuron `j` of `post` is that of `pre` after a perturbation by draws from `s`.
pub open spec fn row_perturbed<const F: usize>(
    pre: Network<F>,
    post: Network<F>,
    j: int,
    s: u64,
    mag: i64,
) -> bool {
    let base = draws_before(j, F as int);
    &&& forall|k: int|
        0 <= k < F ==> #[trigger] post.pw1@[j]@[k] == draw(s, (base + k) as nat, mag)
    &&& forall|k: int|
        0 <= k < F ==> #[trigger] post.w1@[j]@[k] == sat_i64(pre.w1@[j]@[k] + post.pw1@[j]@[k])
    &&& post.pb1@[j] == draw(s, base + F as nat, mag)
    &&& post.b1@[j] == sat_i64(pre.b1@[j] + post.pb1@[j])
    &&& post.pw2@[j] == draw(s, base + F as nat + 1, mag)
    &&& post.w2@[j] == sat_i64(pre.w2@[j] + post.pw2@[j])
}

/// Neuron `j` is the same in both networks.
pub open spec fn row_same<const F: usize>(pre: Network<F>, post: Network<F>, j: int) -> bool {
    &&& post.pw1@[j]@ == pre.pw1@[j]@
    &&& post.w1@[j]@ == pre.w1@[j]@
    &&& post.pb1@[j] == pre.pb1@[j]
    &&& post.b1@[j] == pre.b1@[j]
    &&& post.pw2@[j] == pre.pw2@[j]
    &&& post.w2@[j] == pre.w2@[j]
}

/// `post` is `pre` after a perturbation by draws from `s`.
pub open spec fn perturbed<const F: usize>(
    pre: Network<F>,
    post: Network<F>,
    s: u64,
    mag: i64,
) -> bool {
    &&& forall|j: int| 0 <= j < HIDDEN_SIZE ==> #[trigger] row_perturbed(pre, post, j, s, mag)
    &&& post.pb2 == draw(s, draws_before(HIDDEN_SIZE as int, F as int), mag)
    &&& post.b2 == sat_i64(pre.b2 + post.pb2)
}

/// The number of draws that one perturbation takes.
pub open spec fn draws_per_perturbation(features: int) -> nat {
    draws_before(HIDDEN_SIZE as int, features) + 1
}

/// Neuron `j` of `post` is that of `pre` with its perturbation taken back.
pub open spec fn row_reverted<const F: usize>(pre: Network<F>, post: Network<F>, j: int) -> bool {
    &&& forall|k: int|
        0 <= k < F ==> #[trigger] post.w1@[j]@[k] == sat_i64(pre.w1@[j]@[k] - pre.pw1@[j]@[k])
    &&& forall|k: int| 0 <= k < F ==> #[trigger] post.pw1@[j]@[k] == 0
    &&& post.b1@[j] == sat_i64(pre.b1@[j] - pre.pb1@[j])
    &&& post.pb1@[j] == 0
    &&& post.w2@[j] == sat_i64(pre.w2@[j] - pre.pw2@[j])
    &&& post.pw2@[j] == 0
}

/// `post` is `pre` with its perturbation taken back.
pub open spec fn reverted<const F: usize>(pre: Network<F>, post: Network<F>) -> bool {
    &&& forall|j: int| 0 <= j < HIDDEN_SIZE ==> #[trigger] row_reverted(pre, post, j)
    &&& post.b2 == sat_i64(pre.b2 - pre.pb2)
    &&& post.pb2 == 0
}

/// One product of the fixed-point dot product.
fn weigh(w: i64, x: i64) -> (r: i64)
    ensures
        r == weighted(w, x),
{
    saturating_mul(w, x) / SCALE
}

impl<const F: usize> Network<F> {
    /// The activation of hidden neuron `j` on `features`.
    pub open spec fn activation(self, features: Seq<i64>, j: int) -> int {
        max_int(accumulate(self.w1@[j]@, features, self.b1@[j], F as nat), 0)
    }

    /// The activations of the hidden layer on `features`.
    pub open spec fn hidden(self, features: Seq<i64>) -> Seq<i64> {
        Seq::new(HIDDEN_SIZE as nat, |j: int| self.activation(features, j) as i64)
    }

    /// The output of the network on `features`.
    pub open spec fn score(self, features: Seq<i64>) -> int {
        accumulate(self.w2@, self.hidden(features), self.b2, HIDDEN_SIZE as nat)
    }

    /// A network with the given first-layer and output weights, no biases and
    /// no perturbation.
    pub fn new(w1: [[i64; F]; HIDDEN_SIZE], w2: [i64; HIDDEN_SIZE]) -> (net: Self)
        ensures
            net.w1 == w1,
            net.w2 == w2,
            net.b2 == 0,
            forall|j: int| 0 <= j < HIDDEN_SIZE ==> #[trigger] net.b1@[j] == 0,
            unperturbed(net),
    {
        Network {
            w1,
            b1: [0;HIDDEN_SIZE],
            w2,
            b2: 0,
            pw1: [[0;F];HIDDEN_SIZE],
            pb1: [0;HIDDEN_SIZE],
            pw2: [0;HIDDEN_SIZE],
            pb2: 0,
        }
    }

    /// Evaluates the network: a rectified hidden layer and a linear output.
    pub fn forward(&self, features: &[i64; F]) -> (r: i64)
        ensures
            r == self.score(features@),
    {
        let mut hidden: [i64; HIDDEN_SIZE] = [0;HIDDEN_SIZE];
        let mut j: usize = 0;
        while j < HIDDEN_SIZE
            invariant
                j <= HIDDEN_SIZE,
                forall|i: int| 0 <= i < j ==> #[trigger] hidden@[i] == self.activation(features@, i),
            decreases HIDDEN_SIZE - j,
        {
            let mut sum: i64 = self.b1[j];
            let mut k: usize = 0;
            while k < F
                invariant
                    j < HIDDEN_SIZE,
                    k <= F,
                    sum == accumulate(self.w1@[j as int]@, features@, self.b1@[j as int], k as nat),
                decreases F - k,
            {
                sum = saturating_add(sum, weigh(self.w1[j][k], features[k]));
                k = k + 1;
            }
            hidden[j] = if sum > 0 { sum } else { 0 };
            j = j + 1;
        }
        assert(hidden@ =~= self.hidden(features@));

        let mut score: i64 = self.b2;
        let mut j: usize = 0;
        while j < HIDDEN_SIZE
            invariant
                j <= HIDDEN_SIZE,
                hidden@ == self.hidden(features@),
                score == accumulate(self.w2@, hidden@, self.b2, j as nat),
            decreases HIDDEN_SIZE - j,
        {
            score = saturating_add(score, weigh(self.w2[j], hidden[j]));
            j = j + 1;
        }
        score
    }

    /// Perturbs neuron `j` with the next draws of `rng`.
    fn perturb_row(&mut self, rng: &mut XorShift64, mag: i64, j: usize, Ghost(s): Ghost<u64>)
        requires
            old(rng).wf(),
            0 <= mag < 0x4000_0000_0000_0000,
            j < HIDDEN_SIZE,
            old(rng)@ == state_after(s, draws_before(j as int, F as int)),
        ensures
            final(rng).wf(),
            final(rng)@ == state_after(s, draws_before(j + 1, F as int)),
            row_perturbed(*old(self), *final(self), j as int, s, mag),
            forall|i: int|
                0 <= i < HIDDEN_SIZE && i != j ==> #[trigger] row_same(
                    *old(self),
                    *final(self),
                    i,
                ),
            final(self).b2 == old(self).b2,
            final(self).pb2 == old(self).pb2,
    {
        let ghost base = draws_before(j as int, F as int);
        let ghost before = *self;
        let mut k: usize = 0;
        while k < F
            invariant
                rng.wf(),
                0 <= mag < 0x4000_0000_0000_0000,
                j < HIDDEN_SIZE,
                k <= F,
                rng@ == state_after(s, base + k as nat),
                base == draws_before(j as int, F as int),
                self.b1 == before.b1,
                self.w2 == before.w2,
                self.b2 == before.b2,
                self.pb1 == before.pb1,
                self.pw2 == before.pw2,
                self.pb2 == before.pb2,
                forall|i: int|
                    0 <= i < HIDDEN_SIZE && i != j ==> #[trigger] self.w1@[i]@ == before.w1@[i]@,
                forall|i: int|
                    0 <= i < HIDDEN_SIZE && i != j ==> #[trigger] self.pw1@[i]@ == before.pw1@[i]@,
                forall|i: int|
                    0 <= i < k ==> #[trigger] self.pw1@[j as int]@[i] == draw(
                        s,
                        (base + i) as nat,
                        mag,
                    ),
                forall|i: int|
                    0 <= i < k ==> #[trigger] self.w1@[j as int]@[i] == sat_i64(
                        before.w1@[j as int]@[i] + self.pw1@[j as int]@[i],
                    ),
                forall|i: int|
                    k <= i < F ==> #[trigger] self.w1@[j as int]@[i] == before.w1@[j as int]@[i],
            decreases F - k,
        {
            let delta: i64 = rng.next_i64_inclusive(-mag, mag);
            assert(delta == draw(s, (base + k) as nat, mag));
            self.pw1[j][k] = delta;
            self.w1[j][k] = saturating_add(self.w1[j][k], delta);
            k = k + 1;
        }

        let b_delta: i64 = rng.next_i64_inclusive(-mag, mag);
        self.pb1[j] = b_delta;
        self.b1[j] = saturating_add(self.b1[j], b_delta);

        let w_delta: i64 = rng.next_i64_inclusive(-mag, mag);
        self.pw2[j] = w_delta;
        self.w2[j] = saturating_add(self.w2[j], w_delta);

        proof {
            reveal_with_fuel(state_after, 3);
            assert(draws_before(j + 1, F as int) == base + F as nat + 2) by {
                assert((j + 1) * (F + 2) == j * (F + 2) + F + 2) by (nonlinear_arith);
                assert(j * (F + 2) >= 0) by (nonlinear_arith);
            }
        }
    }

    /// Adds a small random amount to every weight and remembers it.
    pub fn apply_perturbation(&mut self, rng: &mut XorShift64, mag: i64)
        requires
            old(rng).wf(),
            0 <= mag < 0x4000_0000_0000_0000,
        ensures
            final(rng).wf(),
            final(rng)@ == state_after(old(rng)@, draws_per_perturbation(F as int)),
            perturbed(*old(self), *final(self), old(rng)@, mag),
    {
        let ghost s = rng@;
        let ghost before = *self;
        let mut j: usize = 0;
        while j < HIDDEN_SIZE
            invariant
                rng.wf(),
                0 <= mag < 0x4000_0000_0000_0000,
                j <= HIDDEN_SIZE,
                rng@ == state_after(s, draws_before(j as int, F as int)),
                self.b2 == before.b2,
                self.pb2 == before.pb2,
                forall|i: int| 0 <= i < j ==> #[trigger] row_perturbed(before, *self, i, s, mag),
                forall|i: int| j <= i < HIDDEN_SIZE ==> #[trigger] row_same(before, *self, i),
            decreases HIDDEN_SIZE - j,
        {
            let ghost mid = *self;
            self.perturb_row(rng, mag, j, Ghost(s));
            proof {
                assert(row_same(before, mid, j as int));
                assert forall|i: int| 0 <= i < j implies #[trigger] row_perturbed(
                    before,
                    *self,
                    i,
                    s,
                    mag,
                ) by {
                    assert(row_same(mid, *self, i));
                    assert(row_perturbed(before, mid, i, s, mag));
                }
                assert forall|i: int| j + 1 <= i < HIDDEN_SIZE implies #[trigger] row_same(
                    before,
                    *self,
                    i,
                ) by {
                    assert(row_same(mid, *self, i));
                    assert(row_same(before, mid, i));
                }
            }
            j = j + 1;
        }

        let ghost mid = *self;
        let b2_delta: i64 = rng.next_i64_inclusive(-mag, mag);
        self.pb2 = b2_delta;
        self.b2 = saturating_add(self.b2, b2_delta);
        assert forall|i: int| 0 <= i < HIDDEN_SIZE implies #[trigger] row_perturbed(
            before,
            *self,
            i,
            s,
            mag,
        ) by {
            assert(row_perturbed(before, mid, i, s, mag));
        }
    }

    /// Takes the remembered perturbation back out of the weights of neuron `j`.
    fn revert_row(&mut self, j: usize)
        requires
            j < HIDDEN_SIZE,
        ensures
            row_reverted(*old(self), *final(self), j as int),
            forall|i: int|
                0 <= i < HIDDEN_SIZE && i != j ==> #[trigger] row_same(
                    *old(self),
                    *final(self),
                    i,
                ),
            final(self).b2 == old(self).b2,
            final(self).pb2 == old(self).pb2,
    {
        let ghost before = *self;
        let mut k: usize = 0;
        while k < F
            invariant
                j < HIDDEN_SIZE,
                k <= F,
                self.b1 == before.b1,
                self.w2 == before.w2,
                self.b2 == before.b2,
                self.pb1 == before.pb1,
                self.pw2 == before.pw2,
                self.pb2 == before.pb2,
                forall|i: int|
                    0 <= i < HIDDEN_SIZE && i != j ==> #[trigger] self.w1@[i]@ == before.w1@[i]@,
                forall|i: int|
                    0 <= i < HIDDEN_SIZE && i != j ==> #[trigger] self.pw1@[i]@ == before.pw1@[i]@,
                forall|i: int|
                    0 <= i < k ==> #[trigger] self.w1@[j as int]@[i] == sat_i64(
                        before.w1@[j as int]@[i] - before.pw1@[j as int]@[i],
                    ),
                forall|i: int| 0 <= i < k ==> #[trigger] self.pw1@[j as int]@[i] == 0,
                forall|i: int|
                    k <= i < F ==> #[trigger] self.w1@[j as int]@[i] == before.w1@[j as int]@[i],
                forall|i: int|
                    k <= i < F ==> #[trigger] self.pw1@[j as int]@[i] == before.pw1@[j as int]@[i],
            decreases F - k,
        {
            self.w1[j][k] = saturating_sub(self.w1[j][k], self.pw1[j][k]);
            self.pw1[j][k] = 0;
            k = k + 1;
        }
        self.b1[j] = saturating_sub(self.b1[j], self.pb1[j]);
        self.pb1[j] = 0;
        self.w2[j] = saturating_sub(self.w2[j], self.pw2[j]);
        self.pw2[j] = 0;
    }

    /// Takes the remembered perturbation back out of every weight.
    pub fn revert_perturbation(&mut self)
        ensures
            reverted(*old(self), *final(self)),
    {
        let ghost before = *self;
        let mut j: usize = 0;
        while j < HIDDEN_SIZE
            invariant
                j <= HIDDEN_SIZE,
                self.b2 == before.b2,
                self.pb2 == before.pb2,
                forall|i: int| 0 <= i < j ==> #[trigger] row_reverted(before, *self, i),
                forall|i: int| j <= i < HIDDEN_SIZE ==> #[trigger] row_same(before, *self, i),
            decreases HIDDEN_SIZE - j,
        {
            let ghost mid = *self;
            self.revert_row(j);
            proof {
                assert(row_same(before, mid, j as int));
                assert forall|i: int| 0 <= i < j implies #[trigger] row_reverted(
                    before,
                    *self,
                    i,
                ) by {
                    assert(row_same(mid, *self, i));
                    assert(row_reverted(before, mid, i));
                }
                assert forall|i: int| j + 1 <= i < HIDDEN_SIZE implies #[trigger] row_same(
                    before,
                    *self,
                    i,
                ) by {
                    assert(row_same(mid, *self, i));
                    assert(row_same(before, mid, i));
                }
            }
            j = j + 1;
        }
        let ghost mid = *self;
        self.b2 = saturating_sub(self.b2, self.pb2);
        self.pb2 = 0;
        assert forall|i: int| 0 <= i < HIDDEN_SIZE implies #[trigger] row_reverted(
            before,
            *self,
            i,
        ) by {
            assert(row_reverted(before, mid, i));
        }
    }
}

/// Both networks have the same weights and biases, and so the same output.
pub open spec fn same_weights<const F: usize>(a: Network<F>, b: Network<F>) -> bool {
    &&& forall|j: int, k: int|
        0 <= j < HIDDEN_SIZE && 0 <= k < F ==> #[trigger] a.w1@[j]@[k] == b.w1@[j]@[k]
    &&& forall|j: int| 0 <= j < HIDDEN_SIZE ==> #[trigger] a.b1@[j] == b.b1@[j]
    &&& forall|j: int| 0 <= j < HIDDEN_SIZE ==> #[trigger] a.w2@[j] == b.w2@[j]
    &&& a.b2 == b.b2
}

/// No perturbation is in the weights.
pub open spec fn unperturbed<const F: usize>(net: Network<F>) -> bool {
    &&& forall|j: int, k: int|
        0 <= j < HIDDEN_SIZE && 0 <= k < F ==> #[trigger] net.pw1@[j]@[k] == 0
    &&& forall|j: int| 0 <= j < HIDDEN_SIZE ==> #[trigger] net.pb1@[j] == 0
    &&& forall|j: int| 0 <= j < HIDDEN_SIZE ==> #[trigger] net.pw2@[j] == 0
    &&& net.pb2 == 0
}

/// The perturbation that `post` carries moves no weight of `pre` past the
/// limits of its type.
pub open spec fn within_limits<const F: usize>(pre: Network<F>, post: Network<F>) -> bool {
    &&& forall|j: int, k: int|
        0 <= j < HIDDEN_SIZE && 0 <= k < F ==> i64::MIN <= #[trigger] pre.w1@[j]@[k]
            + post.pw1@[j]@[k] <= i64::MAX
    &&& forall|j: int|
        0 <= j < HIDDEN_SIZE ==> i64::MIN <= #[trigger] pre.b1@[j] + post.pb1@[j] <= i64::MAX
    &&& forall|j: int|
        0 <= j < HIDDEN_SIZE ==> i64::MIN <= #[trigger] pre.w2@[j] + post.pw2@[j] <= i64::MAX
    &&& i64::MIN <= pre.b2 + post.pb2 <= i64::MAX
}

/// Reverting undoes a perturbation: where no weight saturated, the network is
/// back at the weights that it had, and carries no perturbation.
pub proof fn lemma_revert_undoes_perturbation<const F: usize>(
    pre: Network<F>,
    mid: Network<F>,
    post: Network<F>,
    s: u64,
    mag: i64,
)
    requires
        perturbed(pre, mid, s, mag),
        reverted(mid, post),
        within_limits(pre, mid),
    ensures
        same_weights(pre, post),
        unperturbed(post),
{
    assert forall|j: int, k: int| 0 <= j < HIDDEN_SIZE && 0 <= k < F implies #[trigger] pre.w1@[j]@[k]
        == post.w1@[j]@[k] && post.pw1@[j]@[k] == 0 by {
        assert(row_perturbed(pre, mid, j, s, mag));
        assert(row_reverted(mid, post, j));
        assert(mid.w1@[j]@[k] == sat_i64(pre.w1@[j]@[k] + mid.pw1@[j]@[k]));
        assert(post.w1@[j]@[k] == sat_i64(mid.w1@[j]@[k] - mid.pw1@[j]@[k]));
        assert(post.pw1@[j]@[k] == 0);
    }
    assert forall|j: int| 0 <= j < HIDDEN_SIZE implies #[trigger] pre.b1@[j] == post.b1@[j]
        && post.pb1@[j] == 0 by {
        assert(row_perturbed(pre, mid, j, s, mag));
        assert(row_reverted(mid, post, j));
    }
    assert forall|j: int| 0 <= j < HIDDEN_SIZE implies #[trigger] pre.w2@[j] == post.w2@[j]
        && post.pw2@[j] == 0 by {
        assert(row_perturbed(pre, mid, j, s, mag));
        assert(row_reverted(mid, post, j));
    }
    assert forall|j: int, k: int| 0 <= j < HIDDEN_SIZE && 0 <= k < F implies #[trigger] post.pw1@[j]@[k]
        == 0 by {
        assert(row_reverted(mid, post, j));
    }
    assert forall|j: int| 0 <= j < HIDDEN_SIZE implies #[trigger] post.pb1@[j] == 0 by {
        assert(row_reverted(mid, post, j));
    }
    assert forall|j: int| 0 <= j < HIDDEN_SIZE implies #[trigger] post.pw2@[j] == 0 by {
        assert(row_reverted(mid, post, j));
    }
}

/// Networks with the same weights give every input the same score.
pub proof fn lemma_same_weights_same_score<const F: usize>(
    a: Network<F>,
    b: Network<F>,
    features: Seq<i64>,
)
    requires
        same_weights(a, b),
    ensures
        a.score(features) == b.score(features),
{
    assert forall|j: int| 0 <= j < HIDDEN_SIZE implies #[trigger] a.activation(features, j)
        == b.activation(features, j) by {
        assert(a.w1@[j]@ =~= b.w1@[j]@);
    }
    assert(a.hidden(features) =~= b.hidden(features));
    assert(a.w2@ =~= b.w2@);
}

/// A draw stays within its magnitude.
pub proof fn lemma_draw_bounded(s: u64, n: nat, mag: i64)
    requires
        0 <= mag,
    ensures
        -mag <= draw(s, n, mag) <= mag,
{
}

/// A perturbation moves each weight and bias by at most its magnitude.
pub proof fn lemma_perturbation_bounded<const F: usize>(
    pre: Network<F>,
    post: Network<F>,
    s: u64,
    mag: i64,
)
    requires
        0 <= mag,
        perturbed(pre, post, s, mag),
    ensures
        forall|j: int, k: int|
            0 <= j < HIDDEN_SIZE && 0 <= k < F ==> -mag <= #[trigger] post.w1@[j]@[k]
                - pre.w1@[j]@[k] <= mag,
        forall|j: int|
            0 <= j < HIDDEN_SIZE ==> -mag <= #[trigger] post.b1@[j] - pre.b1@[j] <= mag,
        forall|j: int|
            0 <= j < HIDDEN_SIZE ==> -mag <= #[trigger] post.w2@[j] - pre.w2@[j] <= mag,
        -mag <= post.b2 - pre.b2 <= mag,
{
    lemma_draw_bounded(s, draws_before(HIDDEN_SIZE as int, F as int), mag);
    assert forall|j: int, k: int| 0 <= j < HIDDEN_SIZE && 0 <= k < F implies -mag
        <= #[trigger] post.w1@[j]@[k] - pre.w1@[j]@[k] <= mag by {
        assert(row_perturbed(pre, post, j, s, mag));
        lemma_draw_bounded(s, (draws_before(j, F as int) + k) as nat, mag);
        assert(post.pw1@[j]@[k] == draw(s, (draws_before(j, F as int) + k) as nat, mag));
    }
    assert forall|j: int| 0 <= j < HIDDEN_SIZE implies -mag <= #[trigger] post.b1@[j] - pre.b1@[j]
        <= mag by {
        assert(row_perturbed(pre, post, j, s, mag));
        lemma_draw_bounded(s, draws_before(j, F as int) + F as nat, mag);
    }
    assert forall|j: int| 0 <= j < HIDDEN_SIZE implies -mag <= #[trigger] post.w2@[j] - pre.w2@[j]
        <= mag by {
        assert(row_perturbed(pre, post, j, s, mag));
        lemma_draw_bounded(s, draws_before(j, F as int) + F as nat + 1, mag);
    }
}

} // verus!
