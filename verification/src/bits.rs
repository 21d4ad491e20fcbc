//! Bit-level arithmetic underlying the conversions: the floor-of-log-base-2
//! specification, concrete powers of two in a 128-bit word, and the bit
//! counts that the conversion laws are stated over.

use vstd::arithmetic::power2::{
    lemma2_to64, lemma2_to64_rest, lemma_pow2_adds, lemma_pow2_pos, lemma_pow2_strictly_increases,
    lemma_pow2_unfold, pow2,
};
use vstd::prelude::*;

verus! {

/// Position (0-based, from the least significant bit) of the highest set bit
/// of `n`; equivalently the floor of the base-2 logarithm of `n`. Zero for
/// `n <= 1`.
pub open spec fn exponent_of(n: nat) -> nat
    decreases n,
{
    if n <= 1 {
        0
    } else {
        1 + exponent_of(n / 2)
    }
}

/// Number of set bits in the binary representation of `n`.
pub open spec fn count_set_bits(n: nat) -> nat
    decreases n,
{
    if n == 0 {
        0
    } else {
        n % 2 + count_set_bits(n / 2)
    }
}

/// Number of leading zero bits of a magnitude `m` read as a 128-bit word;
/// meaningful for `m < pow2(128)`.
pub open spec fn leading_zero_bits(m: nat) -> int {
    if m == 0 {
        128
    } else {
        127 - exponent_of(m)
    }
}

/// The sign of `x`: -1, 0 or 1.
pub open spec fn sign_of(x: int) -> int {
    if x < 0 {
        -1
    } else if x == 0 {
        0
    } else {
        1
    }
}

/// Powers of two never decrease with the exponent.
pub proof fn lemma_pow2_monotone(e1: nat, e2: nat)
    requires
        e1 <= e2,
    ensures
        pow2(e1) <= pow2(e2),
{
    if e1 < e2 {
        lemma_pow2_strictly_increases(e1, e2);
    }
}

/// The concrete values of 2^126, 2^127 and 2^128: the bounds of the 128-bit
/// integer ranges.
pub proof fn lemma_pow2_128()
    ensures
        pow2(126) == 0x40000000000000000000000000000000,
        pow2(127) == 0x80000000000000000000000000000000,
        pow2(128) == 0x100000000000000000000000000000000,
{
    lemma2_to64();
    lemma2_to64_rest();
    lemma_pow2_adds(64, 62);
    lemma_pow2_adds(64, 63);
    lemma_pow2_adds(64, 64);
}

/// `exponent_of(n)` brackets `n` between two adjacent powers of two: it is
/// the exponent of the largest power of two not exceeding `n`.
pub proof fn lemma_exponent_of_bracket(n: nat)
    requires
        n >= 1,
    ensures
        pow2(exponent_of(n)) <= n < pow2(exponent_of(n) + 1),
    decreases n,
{
    if n <= 1 {
        lemma2_to64();
    } else {
        let e2 = exponent_of(n / 2);
        lemma_exponent_of_bracket(n / 2);
        lemma_pow2_unfold(e2 + 1);
        lemma_pow2_unfold(e2 + 2);
        assert(pow2(e2 + 1) == 2 * pow2(e2));
        assert(pow2(e2 + 2) == 2 * pow2(e2 + 1));
        assert(2 * (n / 2) <= n < 2 * (n / 2) + 2);
    }
}

/// No other exponent brackets `n`: if `pow2(e) <= n < pow2(e + 1)` then
/// `e` is `exponent_of(n)`.
pub proof fn lemma_exponent_of_unique(n: nat, e: nat)
    requires
        pow2(e) <= n < pow2(e + 1),
    ensures
        exponent_of(n) == e,
{
    lemma_pow2_pos(e);
    lemma_exponent_of_bracket(n);
    let f = exponent_of(n);
    if e < f {
        lemma_pow2_monotone(e + 1, f);
    }
    if f < e {
        lemma_pow2_monotone(f + 1, e);
    }
}

/// An exact power of two is its own bracket: `exponent_of(pow2(e)) == e`.
pub proof fn lemma_exponent_of_pow2(e: nat)
    ensures
        exponent_of(pow2(e)) == e,
{
    lemma_pow2_pos(e);
    lemma_pow2_strictly_increases(e, e + 1);
    lemma_exponent_of_unique(pow2(e), e);
}

/// A 128-bit magnitude has an exponent of at most 127.
pub proof fn lemma_exponent_of_u128_bound(n: nat)
    requires
        1 <= n < pow2(128),
    ensures
        exponent_of(n) <= 127,
        pow2(exponent_of(n)) <= n < pow2(exponent_of(n) + 1),
{
    lemma_exponent_of_bracket(n);
    if exponent_of(n) >= 128 {
        lemma_pow2_monotone(128, exponent_of(n));
    }
}

/// An exact power of two has exactly one set bit.
pub proof fn lemma_count_set_bits_pow2(e: nat)
    ensures
        count_set_bits(pow2(e)) == 1,
    decreases e,
{
    if e == 0 {
        lemma2_to64();
        assert(count_set_bits(0) == 0);
        assert(count_set_bits(1) == 1);
    } else {
        lemma_count_set_bits_pow2((e - 1) as nat);
        lemma_pow2_unfold(e);
        lemma_pow2_pos((e - 1) as nat);
        let m = pow2((e - 1) as nat);
        assert(pow2(e) == 2 * m);
        assert((2 * m) % 2 == 0 && (2 * m) / 2 == m);
        assert(count_set_bits(2 * m) == count_set_bits(m));
    }
}

/// 2 to the `e`, computed in a 128-bit word.
pub fn pow2_u128(e: u8) -> (r: u128)
    requires
        e <= 127,
    ensures
        r == pow2(e as nat),
{
    proof {
        lemma2_to64();
    }
    let mut r: u128 = 1;
    let mut i: u8 = 0;
    while i < e
        invariant
            i <= e <= 127,
            r == pow2(i as nat),
        decreases e - i,
    {
        proof {
            lemma_pow2_unfold((i + 1) as nat);
            lemma_pow2_monotone((i + 1) as nat, 127);
            lemma_pow2_128();
        }
        r = r * 2;
        i = i + 1;
    }
    r
}

/// Position of the highest set bit of a nonzero 128-bit value.
pub fn floor_log2_u128(v: u128) -> (e: u8)
    requires
        v >= 1,
    ensures
        e <= 127,
        e as nat == exponent_of(v as nat),
{
    proof {
        lemma_pow2_128();
        lemma_exponent_of_u128_bound(v as nat);
    }
    let mut m: u128 = v;
    let mut e: u8 = 0;
    while m >= 2
        invariant
            1 <= m,
            e + exponent_of(m as nat) == exponent_of(v as nat),
            exponent_of(v as nat) <= 127,
        decreases m,
    {
        m = m / 2;
        e = e + 1;
    }
    e
}

} // verus!

