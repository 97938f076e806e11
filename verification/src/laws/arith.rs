//! Laws of the arithmetic helpers.

use crate::arith::{
    bit, count_ones, div_toward_zero, divide, max_int, min_int, ones_below, reinterpret_i64,
    sat_i64, sat_u64, saturating_add, saturating_mul, saturating_sub, with_bit, wrap_inc,
};
use vstd::prelude::*;

verus! {

/// Saturation gives the representable number closest to the exact result, and
/// never reorders two results.
pub proof fn lemma_saturation_is_nearest(x: int, y: u64, z: i64)
    ensures
        0 <= sat_u64(x) <= 0xffff_ffff_ffff_ffff,
        x <= y ==> sat_u64(x) <= y,
        x >= y ==> sat_u64(x) >= y,
        x == y ==> sat_u64(x) == x,
        -0x8000_0000_0000_0000 <= sat_i64(x) <= 0x7fff_ffff_ffff_ffff,
        x <= z ==> sat_i64(x) <= z,
        x >= z ==> sat_i64(x) >= z,
        x == z ==> sat_i64(x) == x,
{
}

/// A quotient times its divisor is the dividend up to a remainder that is
/// smaller than the divisor and never has the sign opposite to the dividend's.
pub proof fn lemma_quotient_and_remainder(a: int, b: int)
    requires
        b != 0,
    ensures
        ({
            let r = a - b * div_toward_zero(a, b);
            &&& a >= 0 ==> 0 <= r
            &&& a <= 0 ==> r <= 0
            &&& b > 0 ==> -b < r < b
            &&& b < 0 ==> b < r < -b
        }),
{
    let m = if b < 0 {
        -b
    } else {
        b
    };
    let n = if a < 0 {
        -a
    } else {
        a
    };
    let q = n / m;
    assert(0 <= n - m * q < m) by (nonlinear_arith)
        requires
            m > 0,
            q == n / m,
    ;
    let d = div_toward_zero(a, b);
    assert(d == q || d == -q);
    assert(b * d == m * q || b * d == -(m * q)) by (nonlinear_arith)
        requires
            m == b || m == -b,
            d == q || d == -q,
    ;
    if (a >= 0) == (b > 0) {
        if a != 0 {
            assert(d == q);
        }
        assert(b * d == if b > 0 {
            m * q
        } else {
            -(m * q)
        }) by (nonlinear_arith)
            requires
                m == if b < 0 {
                    -b
                } else {
                    b
                },
                d == q,
        ;
    } else {
        assert(d == -q);
        assert(b * d == if b > 0 {
            -(m * q)
        } else {
            m * q
        }) by (nonlinear_arith)
            requires
                m == if b < 0 {
                    -b
                } else {
                    b
                },
                d == -q,
        ;
    }
}

/// A larger dividend never has a smaller quotient by 1024.
pub proof fn lemma_truncation_keeps_order(a: int, b: int)
    requires
        a <= b,
    ensures
        div_toward_zero(a, 1024) <= div_toward_zero(b, 1024),
{
}

/// Reading a counter as a signed number keeps it modulo the word size, and
/// keeps every number that fits.
pub proof fn lemma_reinterpretation(x: u64)
    ensures
        reinterpret_i64(x) == x || reinterpret_i64(x) + 0x1_0000_0000_0000_0000 == x,
        -0x8000_0000_0000_0000 <= reinterpret_i64(x) <= 0x7fff_ffff_ffff_ffff,
        wrap_inc(x) == (x + 1) % 0x1_0000_0000_0000_0000,
{
}

/// The larger and the smaller of two numbers are the two numbers.
pub proof fn lemma_larger_and_smaller(a: int, b: int)
    ensures
        min_int(a, b) <= max_int(a, b),
        max_int(a, b) + min_int(a, b) == a + b,
        max_int(a, b) == a || max_int(a, b) == b,
{
}

/// Every bit that is set counts once: a mask without bits counts 0, and of two
/// masks that differ in one bit, the one that has it counts one more.
pub proof fn lemma_each_bit_counts_once(a: u64, b: u64, i: int, n: nat)
    requires
        n <= 64,
        0 <= i < 64,
        !bit(a, i),
        bit(b, i),
        forall|k: int| 0 <= k < 64 && k != i ==> #[trigger] bit(a, k) == bit(b, k),
    ensures
        ones_below(b, n) == ones_below(a, n) + if i < n {
            1int
        } else {
            0
        },
    decreases n,
{
    if n > 0 {
        lemma_each_bit_counts_once(a, b, i, (n - 1) as nat);
        assert(n - 1 != i ==> bit(a, n - 1) == bit(b, n - 1));
    }
}

/// A mask counts nothing exactly if none of its bits is set.
pub proof fn lemma_no_bit_counts_nothing(a: u64, n: nat)
    requires
        n <= 64,
    ensures
        ones_below(a, n) == 0 <==> (forall|k: int| 0 <= k < n ==> !bit(a, k)),
        ones_below(a, n) <= n,
    decreases n,
{
    if n > 0 {
        lemma_no_bit_counts_nothing(a, (n - 1) as nat);
    }
}

/// Bits are binary digits: bit 0 tells odd from even, and halving a number moves
/// each bit down by one.
pub proof fn lemma_bits_are_digits(x: u64, i: int)
    requires
        0 <= i < 63,
    ensures
        bit(x, 0) <==> x % 2 == 1,
        bit(x, i + 1) <==> bit((x / 2) as u64, i),
{
    let n = i as u64;
    let m = (i + 1) as u64;
    let h = (x / 2) as u64;
    assert(((x >> 0u64) & 1 == 1) == (x % 2 == 1)) by (bit_vector);
    assert(((x >> m) & 1 == 1) == ((h >> n) & 1 == 1)) by (bit_vector)
        requires
            n < 63,
            m == n + 1,
            h == x / 2,
    ;
}

/// Setting a bit sets that bit, and counts one more exactly if it was not set.
pub proof fn lemma_setting_a_bit(x: u64, i: usize, y: u64, a: u32, b: u32)
    requires
        i < 64,
        call_ensures(with_bit, (x, i), y),
        call_ensures(count_ones, (x,), a),
        call_ensures(count_ones, (y,), b),
    ensures
        bit(y, i as int),
        forall|k: int| 0 <= k < 64 && k != i ==> #[trigger] bit(y, k) == bit(x, k),
        bit(x, i as int) ==> b == a,
        !bit(x, i as int) ==> b == a + 1,
        a == 0 <==> (forall|k: int| 0 <= k < 64 ==> !bit(x, k)),
{
    assert(bit(y, i as int));
    lemma_no_bit_counts_nothing(x, 64);
    if !bit(x, i as int) {
        lemma_each_bit_counts_once(x, y, i as int, 64);
    } else {
        lemma_same_bits_count_the_same(x, y, 64);
    }
}

proof fn lemma_same_bits_count_the_same(x: u64, y: u64, n: nat)
    requires
        n <= 64,
        forall|k: int| 0 <= k < 64 ==> #[trigger] bit(y, k) == bit(x, k),
    ensures
        ones_below(x, n) == ones_below(y, n),
    decreases n,
{
    if n > 0 {
        lemma_same_bits_count_the_same(x, y, (n - 1) as nat);
        assert(bit(y, n - 1) == bit(x, n - 1));
    }
}

/// The arithmetic operations give the exact result where it fits.
pub proof fn lemma_exact_where_it_fits(a: i64, b: i64, p: i64, q: i64, r: i64, s: i64)
    requires
        call_ensures(saturating_add, (a, b), p),
        call_ensures(saturating_sub, (a, b), q),
        call_ensures(saturating_mul, (a, b), r),
        b != 0,
        call_ensures(divide, (a, b), s),
    ensures
        i64::MIN <= a + b <= i64::MAX ==> p == a + b,
        i64::MIN <= a - b <= i64::MAX ==> q == a - b,
        i64::MIN <= a * b <= i64::MAX ==> r == a * b,
        a + b > i64::MAX ==> p == i64::MAX,
        a + b < i64::MIN ==> p == i64::MIN,
        a >= 0 && b > 0 ==> s * b <= a < (s + 1) * b,
{
    lemma_quotient_and_remainder(a as int, b as int);
    assert(b * s == s * b && (s + 1) * b == b * s + b) by (nonlinear_arith);
}

} // verus!
