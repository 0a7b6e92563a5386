//! Time stamps, and the random numbers made of them.

use vstd::prelude::*;

verus! {

/// The time stamp counter, put together from the two halves that the processor reports.
pub fn read_tsc(low: u32, high: u32) -> (tsc: u64)
    ensures
        tsc == high * 0x1_0000_0000 + low,
{
    assert(((high as u64) << 32) | (low as u64) == high * 0x1_0000_0000 + low) by (bit_vector);
    ((high as u64) << 32) | (low as u64)
}

/// One round of a xorshift generator.
pub open spec fn xorshift64(x: u64) -> u64 {
    let a = x ^ (x >> 13);
    let b = a ^ (a << 7);
    b ^ (b >> 17)
}

/// A number that is hard to foresee, made of the time stamp `tsc`.
pub fn random_u64(tsc: u64) -> (r: u64)
    ensures
        r == xorshift64(tsc),
{
    // this should be enough entropy
    let mut x: u64 = tsc;
    // very fast xorshift64
    x = x ^ (x >> 13);
    x = x ^ (x << 7);
    x = x ^ (x >> 17);
    x
}

/// Different time stamps make different numbers.
pub proof fn random_numbers_differ(x: u64, y: u64)
    requires
        x != y,
    ensures
        xorshift64(x) != xorshift64(y),
{
    let a = x ^ (x >> 13);
    let b = y ^ (y >> 13);
    assert(a != b) by (bit_vector)
        requires
            x != y,
            a == x ^ (x >> 13),
            b == y ^ (y >> 13),
    ;
    let c = a ^ (a << 7);
    let d = b ^ (b << 7);
    assert(c != d) by (bit_vector)
        requires
            a != b,
            c == a ^ (a << 7),
            d == b ^ (b << 7),
    ;
    assert(c ^ (c >> 17) != d ^ (d >> 17)) by (bit_vector)
        requires
            c != d,
    ;
}

/// How a random number `r` comes of a time stamp `x`: undoing the last shift, by adding `r` shifted
/// by every multiple of its 17 bits, gives what the first two shifts make of `x`, a shift by 13 bits
/// to the right and one by 7 bits to the left.
pub proof fn random_number_comes_of_three_shifts(x: u64)
    ensures
        ({
            let r = xorshift64(x);
            r ^ (r >> 17) ^ (r >> 34) ^ (r >> 51) == x ^ (x >> 13) ^ (x << 7) ^ ((x >> 13) << 7)
        }),
{
    let a = x ^ (x >> 13);
    let b = a ^ (a << 7);
    let r = b ^ (b >> 17);
    assert(r ^ (r >> 17) ^ (r >> 34) ^ (r >> 51) == b) by (bit_vector)
        requires
            r == b ^ (b >> 17),
    ;
    assert(b == x ^ (x >> 13) ^ (x << 7) ^ ((x >> 13) << 7)) by (bit_vector)
        requires
            a == x ^ (x >> 13),
            b == a ^ (a << 7),
    ;
}

} // verus!
