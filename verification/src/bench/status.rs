//! Results packed into exit statuses.
//!
//! A child has 32 bits in which to tell its parent what it measured. Counters
//! travel in thousands; small figures travel side by side in bit fields, capped
//! or cut to the width of their field.

use vstd::prelude::*;

verus! {

/// The 32 bits of an exit status.
pub open spec fn bits(status: i32) -> u32 {
    status as u32
}

/// The bits of `status` from bit `shift` on, as many as `mask` has.
pub open spec fn field_of(status: i32, shift: u32, mask: u32) -> u32 {
    (bits(status) >> shift) & mask
}

pub open spec fn capped(value: usize, limit: u32) -> u32 {
    if value < limit {
        value as u32
    } else {
        limit
    }
}

/// The low 32 bits of a natural number, as a two's complement number.
pub open spec fn low_i32(x: int) -> int {
    let low = x % 0x1_0000_0000;
    if low < 0x8000_0000 {
        low
    } else {
        low - 0x1_0000_0000
    }
}

/// The exit status for a work counter: its thousands.
pub fn work_status(counter: usize) -> (r: i32)
    ensures
        r == low_i32(counter as int / 1000),
        counter as int / 1000 <= i32::MAX ==> r == counter as int / 1000,
{
    let thousands: u64 = (counter / 1000) as u64;
    let r: i32 = #[verifier::truncate] (thousands as i32);
    assert(r == {
        let low = thousands % 0x1_0000_0000;
        if low < 0x8000_0000 {
            low as int
        } else {
            low - 0x1_0000_0000
        }
    }) by (bit_vector)
        requires
            r == thousands as i32,
    ;
    r
}

/// The work that an exit status stands for.
pub fn status_work(status: i32) -> (r: u64)
    requires
        status >= 0,
    ensures
        r == status * 1000,
{
    status as u64 * 1000
}

/// The exit status for a small count.
pub fn count_status(count: usize) -> (r: i32)
    ensures
        r == low_i32(count as int),
        count <= i32::MAX ==> r == count,
{
    let wide: u64 = count as u64;
    let r: i32 = #[verifier::truncate] (wide as i32);
    assert(r == {
        let low = wide % 0x1_0000_0000;
        if low < 0x8000_0000 {
            low as int
        } else {
            low - 0x1_0000_0000
        }
    }) by (bit_vector)
        requires
            r == wide as i32,
    ;
    r
}

/// A field of an exit status.
pub fn field(status: i32, shift: u32, mask: u32) -> (r: u32)
    requires
        shift < 32,
    ensures
        r == field_of(status, shift, mask),
        r <= mask,
{
    let code: u32 = #[verifier::truncate] (status as u32);
    assert(((code >> shift) & mask) <= mask) by (bit_vector);
    (code >> shift) & mask
}

/// The part of a code that holds `value`, cut to the bits of `mask`, from bit
/// `shift` on.
pub fn place(value: u32, shift: u32, mask: u32) -> (r: u32)
    requires
        shift < 32,
    ensures
        r == (value & mask) << shift,
{
    (value & mask) << shift
}

/// The exit status with the given bits.
pub fn code_status(code: u32) -> (r: i32)
    ensures
        bits(r) == code,
        code <= i32::MAX ==> r == code,
{
    let r: i32 = #[verifier::truncate] (code as i32);
    assert(r as u32 == code && (code <= 0x7fff_ffff ==> r == code)) by (bit_vector)
        requires
            r == code as i32,
    ;
    r
}

fn cap(value: usize, limit: u32) -> (r: u32)
    ensures
        r == capped(value, limit),
{
    if value < limit as usize {
        value as u32
    } else {
        limit
    }
}

/// The thousands of `work`, cut off below `limit`.
fn thousands(work: usize, limit: u64) -> (r: u32)
    requires
        0 < limit <= 0x1_0000_0000,
    ensures
        r == (work as int / 1000) % (limit as int),
        r < limit,
{
    let wide: u64 = (work / 1000) as u64;
    (wide % limit) as u32
}

/// `status` holds four figures of 7 bits each, capped at 127.
pub open spec fn four_are(status: i32, a: usize, b: usize, c: usize, d: usize) -> bool {
    &&& field_of(status, 21, 0x7F) == capped(a, 0x7F)
    &&& field_of(status, 14, 0x7F) == capped(b, 0x7F)
    &&& field_of(status, 7, 0x7F) == capped(c, 0x7F)
    &&& field_of(status, 0, 0x7F) == capped(d, 0x7F)
}

/// `status` holds two figures of 7 bits each, capped at 127, and the low 14
/// bits of the thousands of `work`.
pub open spec fn with_work_is(status: i32, a: usize, b: usize, work: usize) -> bool {
    &&& field_of(status, 21, 0x7F) == capped(a, 0x7F)
    &&& field_of(status, 14, 0x7F) == capped(b, 0x7F)
    &&& field_of(status, 0, 0x3FFF) == (work as int / 1000) % 0x4000
}

/// `status` holds a total of 10 bits, capped at 1023, and two figures of 7 bits
/// each, capped at 127.
pub open spec fn total_is(status: i32, total: usize, a: usize, b: usize) -> bool {
    &&& field_of(status, 14, 0x3FF) == capped(total, 0x3FF)
    &&& field_of(status, 7, 0x7F) == capped(a, 0x7F)
    &&& field_of(status, 0, 0x7F) == capped(b, 0x7F)
}

/// `status` holds two figures of 7 bits each, capped at 127.
pub open spec fn two_are(status: i32, a: usize, b: usize) -> bool {
    &&& field_of(status, 7, 0x7F) == capped(a, 0x7F)
    &&& field_of(status, 0, 0x7F) == capped(b, 0x7F)
}

/// Four figures of 7 bits each, capped at 127.
pub fn pack_four(a: usize, b: usize, c: usize, d: usize) -> (r: i32)
    ensures
        0 <= r < 0x1000_0000,
        four_are(r, a, b, c, d),
{
    let a7: u32 = cap(a, 0x7F);
    let b7: u32 = cap(b, 0x7F);
    let c7: u32 = cap(c, 0x7F);
    let d7: u32 = cap(d, 0x7F);
    let code: u32 = place(a7, 21, 0x7F) | place(b7, 14, 0x7F) | place(c7, 7, 0x7F) | place(
        d7,
        0,
        0x7F,
    );
    assert(code < 0x1000_0000 && (code >> 21) & 0x7F == a7 && (code >> 14) & 0x7F == b7 && (code
        >> 7) & 0x7F == c7 && (code >> 0) & 0x7F == d7) by (bit_vector)
        requires
            a7 <= 0x7F,
            b7 <= 0x7F,
            c7 <= 0x7F,
            d7 <= 0x7F,
            code == ((a7 & 0x7F) << 21) | ((b7 & 0x7F) << 14) | ((c7 & 0x7F) << 7) | ((d7 & 0x7F)
                << 0),
    ;
    code_status(code)
}

/// The four figures of `pack_four`.
pub fn unpack_four(status: i32) -> (r: (u32, u32, u32, u32))
    ensures
        r.0 == field_of(status, 21, 0x7F),
        r.1 == field_of(status, 14, 0x7F),
        r.2 == field_of(status, 7, 0x7F),
        r.3 == field_of(status, 0, 0x7F),
{
    (
        field(status, 21, 0x7F),
        field(status, 14, 0x7F),
        field(status, 7, 0x7F),
        field(status, 0, 0x7F),
    )
}

/// Two figures of 7 bits each, capped at 127, and the low 14 bits of the
/// thousands of `work`.
pub fn pack_with_work(a: usize, b: usize, work: usize) -> (r: i32)
    ensures
        0 <= r < 0x1000_0000,
        with_work_is(r, a, b, work),
{
    let a7: u32 = cap(a, 0x7F);
    let b7: u32 = cap(b, 0x7F);
    let w: u32 = thousands(work, 0x4000);
    let code: u32 = place(a7, 21, 0x7F) | place(b7, 14, 0x7F) | place(w, 0, 0x3FFF);
    assert(code < 0x1000_0000 && (code >> 21) & 0x7F == a7 && (code >> 14) & 0x7F == b7 && (code
        >> 0) & 0x3FFF == w) by (bit_vector)
        requires
            w < 0x4000,
            a7 <= 0x7F,
            b7 <= 0x7F,
            code == ((a7 & 0x7F) << 21) | ((b7 & 0x7F) << 14) | ((w & 0x3FFF) << 0),
    ;
    code_status(code)
}

/// A total of 10 bits, capped at 1023, and two figures of 7 bits, capped at 127.
pub fn pack_total(total: usize, a: usize, b: usize) -> (r: i32)
    ensures
        0 <= r < 0x100_0000,
        total_is(r, total, a, b),
{
    let t: u32 = cap(total, 0x3FF);
    let a7: u32 = cap(a, 0x7F);
    let b7: u32 = cap(b, 0x7F);
    let code: u32 = place(t, 14, 0x3FF) | place(a7, 7, 0x7F) | place(b7, 0, 0x7F);
    assert(code < 0x100_0000 && (code >> 14) & 0x3FF == t && (code >> 7) & 0x7F == a7 && (code
        >> 0) & 0x7F == b7) by (bit_vector)
        requires
            t <= 0x3FF,
            a7 <= 0x7F,
            b7 <= 0x7F,
            code == ((t & 0x3FF) << 14) | ((a7 & 0x7F) << 7) | ((b7 & 0x7F) << 0),
    ;
    code_status(code)
}

/// Two figures of 7 bits each, capped at 127.
pub fn pack_two(a: usize, b: usize) -> (r: i32)
    ensures
        0 <= r < 0x4000,
        two_are(r, a, b),
{
    let a7: u32 = cap(a, 0x7F);
    let b7: u32 = cap(b, 0x7F);
    let code: u32 = place(a7, 7, 0x7F) | place(b7, 0, 0x7F);
    assert(code < 0x4000 && (code >> 7) & 0x7F == a7 && (code >> 0) & 0x7F == b7) by (bit_vector)
        requires
            a7 <= 0x7F,
            b7 <= 0x7F,
            code == ((a7 & 0x7F) << 7) | ((b7 & 0x7F) << 0),
    ;
    code_status(code)
}

/// A delay of 7 bits, capped at 127, above the low 24 bits of the thousands of
/// `work`. The sign bit stays clear.
pub fn pack_phase(delay: usize, work: usize) -> (r: i32)
    ensures
        0 <= r,
        field_of(r, 24, 0xFF) == capped(delay, 0x7F),
        field_of(r, 0, 0xFF_FFFF) == (work as int / 1000) % 0x100_0000,
{
    let d: u32 = cap(delay, 0x7F);
    let w: u32 = thousands(work, 0x100_0000);
    let code: u32 = place(d, 24, 0x7F) | place(w, 0, 0xFF_FFFF);
    assert(code < 0x8000_0000 && (code >> 24) & 0xFF == d && (code >> 0) & 0xFF_FFFF == w)
        by (bit_vector)
        requires
            w < 0x100_0000,
            d <= 0x7F,
            code == ((d & 0x7F) << 24) | ((w & 0xFF_FFFF) << 0),
    ;
    code_status(code)
}

/// The low 16 bits of the largest gap above the low 16 bits of the mean gap in
/// hundredths. A gap of `0x8000` ticks or more turns the status negative, and
/// the fields can be read all the same.
pub fn pack_gap(max_gap: usize, avg_gap_100: usize) -> (r: i32)
    ensures
        field_of(r, 16, 0xFFFF) == max_gap as int % 0x1_0000,
        field_of(r, 0, 0xFFFF) == avg_gap_100 as int % 0x1_0000,
        r >= 0 <==> max_gap as int % 0x1_0000 < 0x8000,
{
    let m: u32 = (max_gap as u64 % 0x1_0000) as u32;
    let a: u32 = (avg_gap_100 as u64 % 0x1_0000) as u32;
    let code: u32 = place(m, 16, 0xFFFF) | place(a, 0, 0xFFFF);
    assert((code >> 16) & 0xFFFF == m && (code >> 0) & 0xFFFF == a && (code < 0x8000_0000 <==> m
        < 0x8000)) by (bit_vector)
        requires
            m < 0x1_0000,
            a < 0x1_0000,
            code == ((m & 0xFFFF) << 16) | ((a & 0xFFFF) << 0),
    ;
    let r: i32 = code_status(code);
    assert(r >= 0 <==> (r as u32) < 0x8000_0000) by (bit_vector);
    r
}

/// A counter survives the trip through an exit status up to less than a
/// thousand, as long as its thousands fit.
pub proof fn lemma_work_round_trip(counter: usize, status: i32)
    requires
        counter as int / 1000 <= i32::MAX,
        status == low_i32(counter as int / 1000),
    ensures
        status >= 0,
        status * 1000 <= counter < status * 1000 + 1000,
{
}

} // verus!
