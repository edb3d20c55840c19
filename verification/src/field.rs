//! Arithmetic on elements of the field of integers modulo 3329, written
//! without secret-dependent branches.
//!
//! Every function here is straight-line code over `u32`: the timing harness
//! measures these bodies, and their contracts say which number they compute.

use vstd::arithmetic::power2::{lemma2_to64, lemma_pow2_strictly_increases, pow2};
use vstd::bits::{lemma_u32_pow2_no_overflow, lemma_u32_shl_is_mul};
use vstd::prelude::*;

verus! {

/// The field modulus.
pub const KYBER_Q: u32 = 3329;

/// The largest number of bits an element is compressed to.
pub const MAX_COMPRESSED_BITS: u8 = 11;

/// What one masked subtraction of the modulus yields: `a - q` where the
/// wrapped difference has a clear sign bit, `a` itself everywhere else.
pub open spec fn sub_once(a: int) -> int {
    if KYBER_Q <= a < 0x8000_0000 + KYBER_Q {
        a - KYBER_Q
    } else {
        a
    }
}

/// The quotient `n / m` rounded to the nearest integer, halves rounded up.
pub open spec fn round_div(n: int, m: int) -> int {
    (2 * n + m) / (2 * m)
}

/// The element of the field that a `d`-bit value `y` stands for.
pub open spec fn decompressed(y: int, d: nat) -> int {
    round_div(y * KYBER_Q, pow2(d) as int)
}

/// The `d`-bit value that stands for the field element `fe`.
pub open spec fn compressed(fe: int, d: nat) -> int {
    round_div(fe * pow2(d), KYBER_Q as int) % (pow2(d) as int)
}

/// Subtracts the modulus once, if the value is at least the modulus.
///
/// The choice is made with a mask derived from the sign bit of the wrapped
/// difference, so a value of `2^31 + KYBER_Q` or more is handed back as it is.
pub fn conditional_sub_u32(a: u32) -> (r: u32)
    ensures
        r == sub_once(a as int),
        a < 2 * KYBER_Q ==> r == a as int % (KYBER_Q as int),
{
    let t: u32 = a.wrapping_sub(KYBER_Q);
    let sign: u32 = t >> 31;
    let mask: u32 = 0u32.wrapping_sub(sign);
    let r: u32 = (t & !mask) | (a & mask);
    assert(r == if 3329u32 <= a && a < 0x8000_0000u32 + 3329u32 {
        (a - 3329u32) as u32
    } else {
        a
    }) by (bit_vector)
        requires
            a >= 3329u32 ==> t == a - 3329u32,
            a < 3329u32 ==> t == a + 4294963967u32,
            sign == t >> 31,
            sign == 0u32 ==> mask == 0u32,
            sign != 0u32 ==> mask == 0x1_0000_0000u64 - sign,
            r == (t & !mask) | (a & mask),
    ;
    r
}

/// Reduces a value below `KYBER_Q * KYBER_Q` to its residue modulo `KYBER_Q`.
///
/// The quotient is estimated by a multiplication and a shift; the estimate is
/// never too large and at most one too small, which one masked subtraction
/// makes good.
pub fn barrett_reduce(value: u32) -> (r: u32)
    requires
        value < KYBER_Q * KYBER_Q,
    ensures
        r == value as int % (KYBER_Q as int),
{
    let wide: u64 = value as u64 * 5039;
    let quo: u32 = (wide >> 24) as u32;
    assert(wide >> 24 == wide / 16777216) by (bit_vector);
    let r: u32 = value - quo * KYBER_Q;
    assert(r as int % 3329 == value as int % 3329);
    conditional_sub_u32(r)
}

/// Ties the shift `1 << d` to the power of two that the contracts speak of.
proof fn lemma_scale(d: u8)
    requires
        1 <= d <= MAX_COMPRESSED_BITS,
    ensures
        (1u32 << d) == pow2(d as nat),
        2 <= pow2(d as nat) <= 2048,
{
    lemma2_to64();
    lemma_u32_pow2_no_overflow(d as nat);
    lemma_u32_shl_is_mul(1u32, d as u32);
    if d < 11 {
        lemma_pow2_strictly_increases(d as nat, 11);
    }
    if d > 1 {
        lemma_pow2_strictly_increases(1, d as nat);
    }
}

/// Maps a `d`-bit value back to the field: `y * q / 2^d`, rounded to nearest.
pub fn decompress(y: u32, d: u8) -> (r: u32)
    requires
        1 <= d <= MAX_COMPRESSED_BITS,
        y < pow2(d as nat),
    ensures
        r == decompressed(y as int, d as nat),
        r < KYBER_Q,
{
    proof {
        lemma_scale(d);
    }
    let div: u32 = y * KYBER_Q;
    let mut quo: u32 = div >> (d as u32);
    let half: u32 = (div >> (d as u32 - 1)) & 1;
    assert(quo + half == (2 * (y * 3329u32) + (1u32 << d)) / (2 * (1u32 << d)) && quo + half
        < 3329u32) by (bit_vector)
        requires
            1 <= d <= 11,
            y < (1u32 << d),
            div == y * 3329u32,
            quo == div >> (d as u32),
            half == (div >> ((d as u32 - 1) as u32)) & 1,
    ;
    quo += half;
    quo
}

/// Maps a field element to `d` bits: `fe * 2^d / q`, rounded to nearest and
/// taken modulo `2^d`.
pub fn compress(fe: u32, d: u8) -> (r: u32)
    requires
        1 <= d <= MAX_COMPRESSED_BITS,
        fe < KYBER_Q,
    ensures
        r == compressed(fe as int, d as nat),
        r < pow2(d as nat),
{
    proof {
        lemma_scale(d);
    }
    let div: u32 = fe << d;
    assert(div == fe * (1u32 << d) && div <= 6815744u32) by (bit_vector)
        requires
            1 <= d <= 11,
            fe < 3329u32,
            div == fe << d,
    ;
    let wide: u64 = div as u64 * 5039;
    let mut quo: u32 = (wide >> 24) as u32;
    assert(wide >> 24 == wide / 16777216) by (bit_vector);
    let rem: u32 = div - quo * KYBER_Q;
    let low: u32 = (KYBER_Q / 2).wrapping_sub(rem);
    let above_half: u32 = (low >> 31) & 1;
    let high: u32 = KYBER_Q + KYBER_Q / 2 - rem;
    let above_whole: u32 = (high >> 31) & 1;
    assert(above_half == if rem > 1664u32 { 1u32 } else { 0u32 }) by (bit_vector)
        requires
            rem < 6658u32,
            rem <= 1664u32 ==> low == 1664u32 - rem,
            rem > 1664u32 ==> low == 1664u32 + 0x1_0000_0000u64 - rem,
            above_half == (low >> 31) & 1,
    ;
    assert(above_whole == 0u32) by (bit_vector)
        requires
            high < 6658u32,
            above_whole == (high >> 31) & 1,
    ;
    quo += above_half;
    quo += above_whole;
    assert(quo == round_div(div as int, 3329));
    let mask: u32 = (1 << d as u32) - 1;
    let r: u32 = quo & mask;
    assert(r == quo % (1u32 << d) && r < (1u32 << d)) by (bit_vector)
        requires
            1 <= d <= 11,
            mask == (1u32 << (d as u32)) - 1,
            r == quo & mask,
    ;
    (r as u16) as u32
}

/// Compression undoes decompression: a `d`-bit value that is mapped to the
/// field and back comes out unchanged, for every width up to
/// `MAX_COMPRESSED_BITS`.
#[verifier::rlimit(100)]
pub proof fn lemma_compress_inverts_decompress(y: nat, d: nat)
    requires
        1 <= d <= MAX_COMPRESSED_BITS,
        y < pow2(d),
    ensures
        0 <= decompressed(y as int, d) < KYBER_Q,
        compressed(decompressed(y as int, d), d) == y,
{
    let w = d as u8;
    let v = y as u32;
    lemma_scale(w);
    let p = 1u32 << w;
    let n = (2 * (v * 3329u32) + p) as u32;
    let x = n / (2 * p) as u32;
    let m = (2 * (x * p) + 3329u32) as u32;
    assert(n == 2 * (v * 3329u32) + p && x < 3329u32 && m == 2 * (x * p) + 3329u32 && (m / 6658u32)
        % p == v) by (bit_vector)
        requires
            1 <= w <= 11,
            p == 1u32 << w,
            v < p,
            n == (2 * (v * 3329u32) + p) as u32,
            x == n / (2 * p) as u32,
            m == (2 * (x * p) + 3329u32) as u32,
    ;
}

} // verus!
