//! Small deterministic generator for scheduler exploration.

use vstd::prelude::*;

verus! {

/// Small deterministic PRNG for kernel heuristics.
///
/// It is not cryptographic. It serves low-cost policy exploration, where
/// reproducibility matters more than statistical strength.
#[derive(Clone, Copy, Debug)]
pub struct XorShift64 {
    state: u64,
}

/// One xorshift round with the shift triple 13, 7, 17.
pub open spec fn xorshift(x: u64) -> u64 {
    let a = x ^ (x << 13);
    let b = a ^ (a >> 7);
    b ^ (b << 17)
}

/// The state of a generator `n` draws after it was in state `s`.
pub open spec fn state_after(s: u64, n: nat) -> u64
    decreases n,
{
    if n == 0 {
        s
    } else {
        xorshift(state_after(s, (n - 1) as nat))
    }
}

/// The number in `min ..= max` that a raw draw stands for.
pub open spec fn in_range(raw: u64, min: int, max: int) -> int {
    min + (raw as int) % (max - min + 1)
}

impl XorShift64 {
    /// The internal state, which is also the last raw draw.
    pub closed spec fn view(&self) -> u64 {
        self.state
    }

    /// A state of zero would make every later draw zero.
    pub open spec fn wf(&self) -> bool {
        self@ != 0
    }

    /// Whether the generator is in a state that it can leave.
    pub fn is_seeded(&self) -> (b: bool)
        ensures
            b == self.wf(),
    {
        self.state != 0
    }

    /// A generator that starts at `seed`, or at 1 for the seed 0.
    pub fn new(seed: u64) -> (rng: Self)
        ensures
            rng.wf(),
            rng@ == (if seed == 0 {
                1
            } else {
                seed
            }),
    {
        Self { state: if seed == 0 { 1 } else { seed } }
    }

    /// The next raw draw.
    pub fn next_u64(&mut self) -> (r: u64)
        requires
            old(self).wf(),
        ensures
            final(self).wf(),
            r == xorshift(old(self)@),
            final(self)@ == r,
    {
        proof {
            lemma_xorshift_never_zero(self.state);
        }
        let mut x: u64 = self.state;
        x ^= x << 13;
        x ^= x >> 7;
        x ^= x << 17;
        self.state = if x > 1 { x } else { 1 };
        self.state
    }

    /// A draw between `min` and `max`, both included.
    pub fn next_i64_inclusive(&mut self, min: i64, max: i64) -> (r: i64)
        requires
            old(self).wf(),
            min <= max,
            max - min < i64::MAX,
        ensures
            final(self).wf(),
            final(self)@ == xorshift(old(self)@),
            r == in_range(xorshift(old(self)@), min as int, max as int),
            min <= r <= max,
    {
        let span: u64 = (max - min + 1) as u64;
        let raw: u64 = self.next_u64();
        (raw % span) as i64 + min
    }
}

/// A nonzero state is never followed by zero.
pub proof fn lemma_xorshift_never_zero(x: u64)
    requires
        x != 0,
    ensures
        xorshift(x) != 0,
{
    let a = x ^ (x << 13);
    let b = a ^ (a >> 7);
    assert(a != 0) by (bit_vector)
        requires
            x != 0,
            a == x ^ (x << 13),
    ;
    assert(b != 0) by (bit_vector)
        requires
            a != 0,
            b == a ^ (a >> 7),
    ;
    assert((b ^ (b << 17)) != 0) by (bit_vector)
        requires
            b != 0,
    ;
}

/// Different states are followed by different states.
pub proof fn lemma_xorshift_injective(x: u64, y: u64)
    requires
        xorshift(x) == xorshift(y),
    ensures
        x == y,
{
    let a = x ^ (x << 13);
    let b = a ^ (a >> 7);
    let c = y ^ (y << 13);
    let d = c ^ (c >> 7);
    assert(b == d) by (bit_vector)
        requires
            b ^ (b << 17) == d ^ (d << 17),
    ;
    assert(a == c) by (bit_vector)
        requires
            a ^ (a >> 7) == c ^ (c >> 7),
    ;
    assert(x == y) by (bit_vector)
        requires
            x ^ (x << 13) == y ^ (y << 13),
    ;
}

/// A generator that starts in a nonzero state is in one after any number of
/// draws.
pub proof fn lemma_state_after_nonzero(s: u64, n: nat)
    requires
        s != 0,
    ensures
        state_after(s, n) != 0,
    decreases n,
{
    if n > 0 {
        lemma_state_after_nonzero(s, (n - 1) as nat);
        lemma_xorshift_never_zero(state_after(s, (n - 1) as nat));
    }
}

} // verus!
