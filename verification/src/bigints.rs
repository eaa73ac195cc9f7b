//! An exact 64x64 -> 128 bit unsigned product, computed with 64-bit native
//! arithmetic only (schoolbook long multiplication in base 2^32). The result
//! is returned as a (high word, low word) pair; comparing two such pairs
//! lexicographically compares the exact 128-bit products.

use std::cmp::Ordering;
use vstd::arithmetic::div_mod::lemma_fundamental_div_mod_converse;
use vstd::prelude::*;

verus! {

/// Mask selecting the low 32 bits of a 64-bit word.
pub const LOW_BITS: u64 = 0xFFFF_FFFF;

/// Mask selecting the high 32 bits of a 64-bit word.
pub const HIGH_BITS: u64 = 0xFFFF_FFFF_0000_0000;

/// High 64-bit word of the exact 128-bit product `a * b`.
pub open spec fn wide_hi(a: u64, b: u64) -> int {
    (a * b) / 0x1_0000_0000_0000_0000
}

/// Low 64-bit word of the exact 128-bit product `a * b`.
pub open spec fn wide_lo(a: u64, b: u64) -> int {
    (a * b) % 0x1_0000_0000_0000_0000
}

/// The exact product of two unsigned 64-bit integers as a (high, low) pair of
/// 64-bit words: `high * 2^64 + low == first * second`, with no precision
/// loss, for the full input range.
pub fn wide_product(first: u64, second: u64) -> (r: (u64, u64))
    ensures
        r.0 * 0x1_0000_0000_0000_0000 + r.1 == first * second,
        r.0 == wide_hi(first, second),
        r.1 == wide_lo(first, second),
{
    let flow: u64 = first & LOW_BITS;
    let slow: u64 = second & LOW_BITS;
    let fhigh: u64 = (first & HIGH_BITS) >> 32;
    let shigh: u64 = (second & HIGH_BITS) >> 32;
    proof {
        assert(flow <= 0xFFFF_FFFF && fhigh <= 0xFFFF_FFFF && first == fhigh * 0x1_0000_0000
            + flow) by (bit_vector)
            requires
                flow == first & 0xFFFF_FFFFu64,
                fhigh == (first & 0xFFFF_FFFF_0000_0000u64) >> 32u64,
        ;
        assert(slow <= 0xFFFF_FFFF && shigh <= 0xFFFF_FFFF && second == shigh * 0x1_0000_0000
            + slow) by (bit_vector)
            requires
                slow == second & 0xFFFF_FFFFu64,
                shigh == (second & 0xFFFF_FFFF_0000_0000u64) >> 32u64,
        ;
        assert(flow * slow <= 0xFFFF_FFFE_0000_0001 && fhigh * slow <= 0xFFFF_FFFE_0000_0001
            && flow * shigh <= 0xFFFF_FFFE_0000_0001 && fhigh * shigh
            <= 0xFFFF_FFFE_0000_0001) by (nonlinear_arith)
            requires
                flow <= 0xFFFF_FFFF,
                slow <= 0xFFFF_FFFF,
                fhigh <= 0xFFFF_FFFF,
                shigh <= 0xFFFF_FFFF,
        ;
    }
    let reslow: u64 = flow * slow;
    let resm1: u64 = fhigh * slow;
    let resm2: u64 = flow * shigh;
    proof {
        assert(resm1 & LOW_BITS == resm1 % 0x1_0000_0000 && resm1 % 0x1_0000_0000 <= 0xFFFF_FFFF
            && (resm1 & HIGH_BITS) >> 32 == resm1 / 0x1_0000_0000 && resm1 == (resm1
            / 0x1_0000_0000) * 0x1_0000_0000 + resm1 % 0x1_0000_0000) by (bit_vector);
        assert(resm2 & LOW_BITS == resm2 % 0x1_0000_0000 && resm2 % 0x1_0000_0000 <= 0xFFFF_FFFF
            && (resm2 & HIGH_BITS) >> 32 == resm2 / 0x1_0000_0000 && resm2 == (resm2
            / 0x1_0000_0000) * 0x1_0000_0000 + resm2 % 0x1_0000_0000) by (bit_vector);
        assert(reslow & LOW_BITS == reslow % 0x1_0000_0000 && (reslow & HIGH_BITS) >> 32 == reslow
            / 0x1_0000_0000 && reslow / 0x1_0000_0000 <= 0xFFFF_FFFF && reslow == (reslow
            / 0x1_0000_0000) * 0x1_0000_0000 + reslow % 0x1_0000_0000) by (bit_vector);
    }
    let secdig: u64 = (resm1 & LOW_BITS) + (resm2 & LOW_BITS) + ((reslow & HIGH_BITS) >> 32);
    proof {
        assert(secdig & LOW_BITS == secdig % 0x1_0000_0000 && (secdig & HIGH_BITS) >> 32 == secdig
            / 0x1_0000_0000 && secdig == (secdig / 0x1_0000_0000) * 0x1_0000_0000 + secdig
            % 0x1_0000_0000) by (bit_vector);
        assert((secdig & HIGH_BITS) >> 32 <= 2) by (bit_vector)
            requires
                secdig <= 0x2_FFFF_FFFDu64,
        ;
        assert((resm1 & HIGH_BITS) >> 32 <= 0xFFFF_FFFE) by (bit_vector)
            requires
                resm1 <= 0xFFFF_FFFE_0000_0001u64,
        ;
        assert((resm2 & HIGH_BITS) >> 32 <= 0xFFFF_FFFE) by (bit_vector)
            requires
                resm2 <= 0xFFFF_FFFE_0000_0001u64,
        ;
    }
    let high: u64 = ((secdig & HIGH_BITS) >> 32) + ((resm1 & HIGH_BITS) >> 32) + ((resm2
        & HIGH_BITS) >> 32) + fhigh * shigh;
    let low: u64 = ((secdig & LOW_BITS) << 32) | (reslow & LOW_BITS);
    proof {
        assert(low == (secdig % 0x1_0000_0000) * 0x1_0000_0000 + reslow
            % 0x1_0000_0000) by (bit_vector)
            requires
                low == ((secdig & 0xFFFF_FFFFu64) << 32u64) | (reslow & 0xFFFF_FFFFu64),
        ;
        assert(first * second == (fhigh * shigh) * 0x1_0000_0000_0000_0000 + (fhigh * slow)
            * 0x1_0000_0000 + (flow * shigh) * 0x1_0000_0000 + flow * slow) by (nonlinear_arith)
            requires
                first == fhigh * 0x1_0000_0000 + flow,
                second == shigh * 0x1_0000_0000 + slow,
        ;
        assert(high * 0x1_0000_0000_0000_0000 + low == first * second);
        lemma_fundamental_div_mod_converse(
            first * second,
            0x1_0000_0000_0000_0000,
            high as int,
            low as int,
        );
    }
    (high, low)
}

/// Compares the two exact 128-bit products `a1 * a2` and `b1 * b2` by
/// computing each as a (high, low) pair and comparing the pairs
/// lexicographically: high words first, low words on a tie.
pub fn wide_cmp(a1: u64, a2: u64, b1: u64, b2: u64) -> (r: Ordering)
    ensures
        (r == Ordering::Less) == (a1 * a2 < b1 * b2),
        (r == Ordering::Equal) == (a1 * a2 == b1 * b2),
        (r == Ordering::Greater) == (a1 * a2 > b1 * b2),
{
    let (h1, l1) = wide_product(a1, a2);
    let (h2, l2) = wide_product(b1, b2);
    if h1 < h2 {
        Ordering::Less
    } else if h1 > h2 {
        Ordering::Greater
    } else if l1 < l2 {
        Ordering::Less
    } else if l1 > l2 {
        Ordering::Greater
    } else {
        Ordering::Equal
    }
}

/// The wide product is commutative: both words of `a * b` equal the
/// corresponding words of `b * a`, for all unsigned 64-bit `a` and `b`.
pub proof fn lemma_wide_product_commutes(a: u64, b: u64)
    ensures
        wide_hi(a, b) == wide_hi(b, a),
        wide_lo(a, b) == wide_lo(b, a),
{
    assert(a * b == b * a) by (nonlinear_arith);
}

/// Multiplying by zero yields the zero pair, for every unsigned 64-bit `b`.
pub proof fn lemma_wide_product_zero(b: u64)
    ensures
        wide_hi(0, b) == 0,
        wide_lo(0, b) == 0,
{
    assert(0 * b == 0) by (nonlinear_arith);
}

} // verus!
