//! Fixed-point and saturating arithmetic on machine integers.

use vstd::prelude::*;

verus! {

/// The value of type `u64` closest to `x`.
pub open spec fn sat_u64(x: int) -> int {
    if x < 0 {
        0
    } else if x > u64::MAX {
        u64::MAX as int
    } else {
        x
    }
}

/// The value of type `i64` closest to `x`.
pub open spec fn sat_i64(x: int) -> int {
    if x < i64::MIN {
        i64::MIN as int
    } else if x > i64::MAX {
        i64::MAX as int
    } else {
        x
    }
}

/// The 64-bit pattern of `x` read as a two's complement number.
pub open spec fn reinterpret_i64(x: u64) -> int {
    if x <= i64::MAX {
        x as int
    } else {
        x - 0x1_0000_0000_0000_0000
    }
}

/// Division that rounds toward zero.
pub open spec fn div_toward_zero(a: int, b: int) -> int
    recommends
        b != 0,
{
    if b < 0 {
        -div_floor_magnitude(a, -b)
    } else {
        div_floor_magnitude(a, b)
    }
}

/// The quotient of the magnitude of `a` by a positive `b`, with the sign of `a`.
pub open spec fn div_floor_magnitude(a: int, b: int) -> int {
    if a >= 0 {
        a / b
    } else {
        -((-a) / b)
    }
}

/// The number after `x` on a 64-bit counter that starts over at its limit.
pub open spec fn wrap_inc(x: u64) -> u64 {
    if x == u64::MAX {
        0
    } else {
        (x + 1) as u64
    }
}

pub open spec fn max_int(a: int, b: int) -> int {
    if a >= b {
        a
    } else {
        b
    }
}

pub open spec fn min_int(a: int, b: int) -> int {
    if a <= b {
        a
    } else {
        b
    }
}

/// Bit `i` of `x`, the lowest being bit 0.
pub open spec fn bit(x: u64, i: int) -> bool {
    (x >> (i as u64)) & 1 == 1
}

/// Number of bits set among the lowest `n` bits of `x`.
pub open spec fn ones_below(x: u64, n: nat) -> nat
    decreases n,
{
    if n == 0 {
        0
    } else {
        ones_below(x, (n - 1) as nat) + if bit(x, n - 1) {
            1nat
        } else {
            0
        }
    }
}

pub fn saturating_add(a: i64, b: i64) -> (r: i64)
    ensures
        r == sat_i64(a + b),
{
    let sum: i128 = a as i128 + b as i128;
    saturate(sum)
}

pub fn saturating_sub(a: i64, b: i64) -> (r: i64)
    ensures
        r == sat_i64(a - b),
{
    let difference: i128 = a as i128 - b as i128;
    saturate(difference)
}

pub fn saturating_mul(a: i64, b: i64) -> (r: i64)
    ensures
        r == sat_i64(a * b),
{
    assert(-0x4000_0000_0000_0000_0000_0000_0000_0000 <= a * b
        <= 0x4000_0000_0000_0000_0000_0000_0000_0000) by (nonlinear_arith)
        requires
            -0x8000_0000_0000_0000 <= a <= 0x7fff_ffff_ffff_ffff,
            -0x8000_0000_0000_0000 <= b <= 0x7fff_ffff_ffff_ffff,
    ;
    let product: i128 = a as i128 * b as i128;
    saturate(product)
}

pub fn saturating_mul_u64(a: u64, b: u64) -> (r: u64)
    ensures
        r == sat_u64(a * b),
{
    assert(0 <= a * b <= 0xffff_ffff_ffff_ffff * 0xffff_ffff_ffff_ffff) by (nonlinear_arith)
        requires
            0 <= a <= 0xffff_ffff_ffff_ffff,
            0 <= b <= 0xffff_ffff_ffff_ffff,
    ;
    let product: u128 = a as u128 * b as u128;
    if product > u64::MAX as u128 {
        u64::MAX
    } else {
        product as u64
    }
}

fn saturate(x: i128) -> (r: i64)
    ensures
        r == sat_i64(x as int),
{
    if x < i64::MIN as i128 {
        i64::MIN
    } else if x > i64::MAX as i128 {
        i64::MAX
    } else {
        x as i64
    }
}

/// `a / b`, rounded toward zero.
pub fn divide(a: i64, b: i64) -> (r: i64)
    requires
        b != 0,
        !(a == i64::MIN && b == -1),
    ensures
        r == div_toward_zero(a as int, b as int),
{
    proof {
        let m: int = if a >= 0 {
            a as int
        } else {
            -a as int
        };
        let n: int = if b >= 0 {
            b as int
        } else {
            -b as int
        };
        assert(0 <= m / n <= m) by (nonlinear_arith)
            requires
                m >= 0,
                n > 0,
        ;
        if m == 0x8000_0000_0000_0000 && n > 1 {
            assert(m / n < m) by (nonlinear_arith)
                requires
                    m > 0,
                    n > 1,
            ;
        }
        assert(m / b as int == if b >= 0 {
            m / n
        } else {
            -(m / n)
        }) by (nonlinear_arith)
            requires
                b != 0,
                n == if b >= 0 {
                    b as int
                } else {
                    -b as int
                },
        ;
    }
    a / b
}

/// The 64 bits of `x` as a signed number.
pub fn as_i64(x: u64) -> (r: i64)
    ensures
        r == reinterpret_i64(x),
{
    let r: i64 = #[verifier::truncate] (x as i64);
    assert(r == if x <= 0x7fff_ffff_ffff_ffff {
        x as int
    } else {
        x - 0x1_0000_0000_0000_0000
    }) by (bit_vector)
        requires
            r == x as i64,
    ;
    r
}

/// Number of bits set in `x`.
pub fn count_ones(x: u64) -> (r: u32)
    ensures
        r == ones_below(x, 64),
        r <= 64,
{
    let mut count: u32 = 0;
    let mut i: u64 = 0;
    while i < 64
        invariant
            i <= 64,
            count <= i,
            count == ones_below(x, i as nat),
        decreases 64 - i,
    {
        if (x >> i) & 1 == 1 {
            count = count + 1;
        }
        i = i + 1;
    }
    count
}

/// `x` with bit `i` set as well.
pub fn with_bit(x: u64, i: usize) -> (r: u64)
    requires
        i < 64,
    ensures
        forall|k: int| 0 <= k < 64 ==> #[trigger] bit(r, k) == (bit(x, k) || k == i),
{
    let r: u64 = x | (1u64 << i);
    proof {
        let shift = i as u64;
        assert forall|k: int| 0 <= k < 64 implies #[trigger] bit(r, k) == (bit(x, k) || k
            == i) by {
            let place = k as u64;
            assert((((x | (1u64 << shift)) >> place) & 1 == 1) == ((x >> place) & 1 == 1 || place
                == shift)) by (bit_vector)
                requires
                    place < 64,
                    shift < 64,
            ;
        }
    }
    r
}

/// Setting a bit adds one to the number of bits set, unless it was set before.
pub proof fn lemma_ones_with_bit(x: u64, y: u64, i: int, n: nat)
    requires
        n <= 64,
        forall|k: int| 0 <= k < 64 ==> #[trigger] bit(y, k) == (bit(x, k) || k == i),
    ensures
        ones_below(y, n) == ones_below(x, n) + (if 0 <= i < n && !bit(x, i) {
            1nat
        } else {
            0
        }),
    decreases n,
{
    if n > 0 {
        lemma_ones_with_bit(x, y, i, (n - 1) as nat);
        assert(bit(y, n - 1) == (bit(x, n - 1) || n - 1 == i));
    }
}

/// Wrapping at 64 bits after every step is the same as wrapping once.
pub proof fn lemma_wraps_once(a: int, b: int)
    ensures
        (a % 0x1_0000_0000_0000_0000 + b) % 0x1_0000_0000_0000_0000 == (a + b)
            % 0x1_0000_0000_0000_0000,
{
}

} // verus!
