//! The `Zequal` representation and the conversions between it and the
//! 128-bit integer types.

use crate::bits::{
    count_set_bits, exponent_of, floor_log2_u128, leading_zero_bits, lemma_count_set_bits_pow2,
    lemma_exponent_of_pow2, lemma_exponent_of_u128_bound, lemma_pow2_128, lemma_pow2_monotone,
    pow2_u128, sign_of,
};
use vstd::arithmetic::power2::{lemma_pow2_pos, lemma_pow2_unfold, pow2};
use vstd::math::abs;
use vstd::prelude::*;

verus! {

/// The sign of a represented value.
#[derive(PartialEq, Eq, Structural, Debug)]
pub enum Sign {
    Neg,
    Pos,
    Zero,
}

/// A 128-bit integer rounded down to a power of two: the represented value
/// is `sign` times 2 to the `exponent`.
#[derive(PartialEq, Eq, Structural, Debug)]
pub struct Zequal {
    pub exponent: i8,
    pub sign: Sign,
}

impl Zequal {
    /// Every value the conversions produce satisfies this: the exponent is a
    /// valid bit position and the canonical zero carries exponent 0.
    pub open spec fn wf(self) -> bool {
        0 <= self.exponent && (self.sign == Sign::Zero ==> self.exponent == 0)
    }

    /// `Zequal` representation of `0`.
    pub fn new() -> (z: Self)
        ensures
            z == (Zequal { exponent: 0, sign: Sign::Zero }),
    {
        Self { exponent: 0, sign: Sign::Zero }
    }
}

/// The `Zequal` a given unsigned 128-bit value converts to: canonical zero
/// for 0, otherwise positive with the position of the highest set bit.
pub open spec fn zequal_of_u128(v: u128) -> Zequal {
    if v == 0 {
        Zequal { exponent: 0, sign: Sign::Zero }
    } else {
        Zequal { exponent: exponent_of(v as nat) as i8, sign: Sign::Pos }
    }
}

/// The unsigned 128-bit value a `Zequal` converts to: 2 to the exponent,
/// with a negative sign ignored. A negative exponent never arises from the
/// conversions; such a value reconstructs as 0.
pub open spec fn unsigned_of_zequal(z: Zequal) -> u128 {
    if z.sign == Sign::Zero {
        0
    } else if 0 <= z.exponent {
        pow2(z.exponent as nat) as u128
    } else {
        0
    }
}

/// The `Zequal` a given signed 128-bit value converts to: canonical zero for
/// 0, otherwise the position of the highest set bit of the magnitude,
/// tagged with the value's sign.
pub open spec fn zequal_of_i128(v: i128) -> Zequal {
    if v == 0 {
        Zequal { exponent: 0, sign: Sign::Zero }
    } else if v > 0 {
        Zequal { exponent: exponent_of(v as nat) as i8, sign: Sign::Pos }
    } else {
        Zequal { exponent: exponent_of(abs(v as int)) as i8, sign: Sign::Neg }
    }
}

/// The signed 128-bit value a `Zequal` converts to: plus or minus 2 to the
/// exponent. A positive exponent 127 does not fit the signed range and a
/// negative exponent never arises from the conversions; both reconstruct
/// as 0.
pub open spec fn signed_of_zequal(z: Zequal) -> i128 {
    match z.sign {
        Sign::Zero => 0,
        Sign::Pos => if 0 <= z.exponent <= 126 {
            pow2(z.exponent as nat) as i128
        } else {
            0
        },
        Sign::Neg => if 0 <= z.exponent {
            (-(pow2(z.exponent as nat) as int)) as i128
        } else {
            0
        },
    }
}

/// Extract the exponent part from a number to create a `Zequal` number.
pub trait Exponent {
    /// The magnitude whose highest set bit the exponent reports.
    spec fn magnitude(&self) -> nat;

    /// Position of the highest set bit of the magnitude.
    fn exponent(&self) -> (e: i8)
        requires
            self.magnitude() >= 1,
        ensures
            0 <= e,
            e as nat == exponent_of(self.magnitude()),
    ;
}

impl Exponent for u128 {
    open spec fn magnitude(&self) -> nat {
        *self as nat
    }

    fn exponent(&self) -> (e: i8) {
        floor_log2_u128(*self) as i8
    }
}

impl Exponent for i128 {
    open spec fn magnitude(&self) -> nat {
        abs(*self as int)
    }

    fn exponent(&self) -> (e: i8) {
        let mag: u128 = if *self >= 0 {
            *self as u128
        } else if *self == i128::MIN {
            0x80000000000000000000000000000000u128
        } else {
            (-*self) as u128
        };
        floor_log2_u128(mag) as i8
    }
}

impl From<u128> for Zequal {
    /// Round an unsigned value down to a power of two: keep only the
    /// highest set bit, as an exponent, and classify the sign.
    fn from(value: u128) -> (z: Self) {
        if value == 0 {
            Self { exponent: 0, sign: Sign::Zero }
        } else {
            proof {
                lemma_pow2_128();
                lemma_exponent_of_u128_bound(value as nat);
            }
            Self { exponent: value.exponent(), sign: Sign::Pos }
        }
    }
}

impl vstd::std_specs::convert::FromSpecImpl<u128> for Zequal {
    open spec fn obeys_from_spec() -> bool {
        true
    }

    open spec fn from_spec(v: u128) -> Zequal {
        zequal_of_u128(v)
    }
}

impl From<Zequal> for u128 {
    /// Reconstruct the represented magnitude: 2 to the exponent, the sign
    /// discarded.
    fn from(value: Zequal) -> (r: Self) {
        if value.sign == Sign::Zero {
            0
        } else if value.exponent >= 0 {
            pow2_u128(value.exponent as u8)
        } else {
            0
        }
    }
}

impl vstd::std_specs::convert::FromSpecImpl<Zequal> for u128 {
    open spec fn obeys_from_spec() -> bool {
        true
    }

    open spec fn from_spec(v: Zequal) -> u128 {
        unsigned_of_zequal(v)
    }
}

impl From<i128> for Zequal {
    /// Round a signed value down, in magnitude, to a power of two: keep
    /// only the highest set bit of the absolute value, as an exponent, and
    /// classify the sign. The most negative value, of magnitude 2^127, is
    /// handled in the unsigned domain, where its absolute value fits.
    fn from(value: i128) -> (z: Self) {
        proof {
            lemma_pow2_128();
            if value != 0 {
                lemma_exponent_of_u128_bound(abs(value as int));
            }
        }
        if value == 0 {
            Self { exponent: 0, sign: Sign::Zero }
        } else if value > 0 {
            Self { exponent: value.exponent(), sign: Sign::Pos }
        } else {
            Self { exponent: value.exponent(), sign: Sign::Neg }
        }
    }
}

impl vstd::std_specs::convert::FromSpecImpl<i128> for Zequal {
    open spec fn obeys_from_spec() -> bool {
        true
    }

    open spec fn from_spec(v: i128) -> Zequal {
        zequal_of_i128(v)
    }
}

impl From<Zequal> for i128 {
    /// Reconstruct the represented value: plus or minus 2 to the exponent.
    /// The negative boundary value, of exponent 127, is built directly,
    /// since negating the positive magnitude would overflow.
    fn from(value: Zequal) -> (r: Self) {
        proof {
            lemma_pow2_128();
        }
        match value.sign {
            Sign::Zero => 0,
            Sign::Pos => if value.exponent >= 0 && value.exponent <= 126 {
                proof {
                    lemma_pow2_monotone(value.exponent as nat, 126);
                }
                pow2_u128(value.exponent as u8) as i128
            } else {
                0
            },
            Sign::Neg => if value.exponent == 127 {
                i128::MIN
            } else if value.exponent >= 0 {
                proof {
                    lemma_pow2_monotone(value.exponent as nat, 126);
                }
                -(pow2_u128(value.exponent as u8) as i128)
            } else {
                0
            },
        }
    }
}

impl vstd::std_specs::convert::FromSpecImpl<Zequal> for i128 {
    open spec fn obeys_from_spec() -> bool {
        true
    }

    open spec fn from_spec(v: Zequal) -> i128 {
        signed_of_zequal(v)
    }
}

/// Trait for converting a number into its zequalized form: the nearest
/// power of two not exceeding its magnitude, with the sign kept.
pub trait Zequals: Sized {
    /// The zequalized value: what a round trip through `Zequal` returns.
    spec fn zequalized(self) -> Self;

    /// Perform the operation.
    fn zequals(self) -> (r: Self)
        ensures
            r == self.zequalized(),
    ;
}

impl Zequals for u128 {
    open spec fn zequalized(self) -> u128 {
        if self == 0 {
            0
        } else {
            pow2(exponent_of(self as nat)) as u128
        }
    }

    fn zequals(self) -> (r: u128) {
        proof {
            lemma_pow2_128();
            if self != 0 {
                lemma_exponent_of_u128_bound(self as nat);
            }
        }
        Zequal::from(self).into()
    }
}

impl Zequals for i128 {
    open spec fn zequalized(self) -> i128 {
        if self == 0 {
            0
        } else if self > 0 {
            pow2(exponent_of(self as nat)) as i128
        } else {
            (-(pow2(exponent_of(abs(self as int))) as int)) as i128
        }
    }

    fn zequals(self) -> (r: i128) {
        proof {
            lemma_pow2_128();
            if self != 0 {
                lemma_exponent_of_u128_bound(abs(self as int));
            }
        }
        Zequal::from(self).into()
    }
}

/// Conversion from an unsigned value only produces well-formed `Zequal`
/// values.
pub proof fn lemma_zequal_of_u128_well_formed(v: u128)
    ensures
        zequal_of_u128(v).wf(),
{
    if v != 0 {
        lemma_pow2_128();
        lemma_exponent_of_u128_bound(v as nat);
    }
}

/// Conversion from a signed value only produces well-formed `Zequal`
/// values.
pub proof fn lemma_zequal_of_i128_well_formed(v: i128)
    ensures
        zequal_of_i128(v).wf(),
{
    if v != 0 {
        lemma_pow2_128();
        lemma_exponent_of_u128_bound(abs(v as int));
    }
}

/// Rounding law: for every nonzero unsigned value `n`, the round trip
/// through `Zequal` returns the unique power of two `p` with
/// `p <= n < 2 * p`.
pub proof fn lemma_unsigned_round_trip_bracket(n: u128)
    requires
        n != 0,
    ensures
        unsigned_of_zequal(zequal_of_u128(n)) <= n,
        n < 2 * (unsigned_of_zequal(zequal_of_u128(n)) as int),
{
    lemma_pow2_128();
    lemma_exponent_of_u128_bound(n as nat);
    lemma_pow2_unfold(exponent_of(n as nat) + 1);
}

/// For every nonzero unsigned value, the round trip through `Zequal`
/// returns a value with exactly one set bit.
pub proof fn lemma_unsigned_round_trip_single_bit(n: u128)
    requires
        n != 0,
    ensures
        count_set_bits(unsigned_of_zequal(zequal_of_u128(n)) as nat) == 1,
{
    lemma_pow2_128();
    lemma_exponent_of_u128_bound(n as nat);
    lemma_count_set_bits_pow2(exponent_of(n as nat));
}

/// The round trip through `Zequal` keeps the number of leading zero bits of
/// every unsigned value: the highest set bit stays where it was.
pub proof fn lemma_unsigned_round_trip_leading_zeros(n: u128)
    ensures
        leading_zero_bits(unsigned_of_zequal(zequal_of_u128(n)) as nat) == leading_zero_bits(
            n as nat,
        ),
{
    if n != 0 {
        lemma_pow2_128();
        lemma_exponent_of_u128_bound(n as nat);
        lemma_exponent_of_pow2(exponent_of(n as nat));
        lemma_pow2_pos(exponent_of(n as nat));
    }
}

/// The round trip through `Zequal` keeps the sign of every signed value.
pub proof fn lemma_signed_round_trip_sign(n: i128)
    ensures
        sign_of(signed_of_zequal(zequal_of_i128(n)) as int) == sign_of(n as int),
{
    lemma_pow2_128();
    if n > 0 {
        lemma_exponent_of_u128_bound(n as nat);
        if exponent_of(n as nat) >= 127 {
            lemma_pow2_monotone(127, exponent_of(n as nat));
        }
        lemma_pow2_pos(exponent_of(n as nat));
    } else if n < 0 {
        lemma_exponent_of_u128_bound(abs(n as int));
        lemma_pow2_pos(exponent_of(abs(n as int)));
        lemma_pow2_monotone(exponent_of(abs(n as int)), 127);
    }
}

/// The round trip through `Zequal` keeps the number of leading zero bits of
/// the magnitude of every signed value.
pub proof fn lemma_signed_round_trip_leading_zeros(n: i128)
    ensures
        leading_zero_bits(abs(signed_of_zequal(zequal_of_i128(n)) as int)) == leading_zero_bits(
            abs(n as int),
        ),
{
    lemma_pow2_128();
    if n > 0 {
        lemma_exponent_of_u128_bound(n as nat);
        if exponent_of(n as nat) >= 127 {
            lemma_pow2_monotone(127, exponent_of(n as nat));
        }
        lemma_pow2_pos(exponent_of(n as nat));
        lemma_exponent_of_pow2(exponent_of(n as nat));
    } else if n < 0 {
        lemma_exponent_of_u128_bound(abs(n as int));
        lemma_pow2_pos(exponent_of(abs(n as int)));
        lemma_pow2_monotone(exponent_of(abs(n as int)), 127);
        lemma_exponent_of_pow2(exponent_of(abs(n as int)));
    }
}

/// Round-trip identity on exact powers of two: an unsigned `2^e` converts
/// to a `Zequal` and back unchanged.
pub proof fn lemma_power_of_two_round_trip_unsigned(e: nat)
    requires
        e <= 127,
    ensures
        unsigned_of_zequal(zequal_of_u128(pow2(e) as u128)) == pow2(e),
{
    lemma_pow2_128();
    lemma_pow2_monotone(e, 127);
    lemma_pow2_pos(e);
    lemma_exponent_of_pow2(e);
}

/// Round-trip identity on exact powers of two: a positive signed `2^e`
/// converts to a `Zequal` and back unchanged.
pub proof fn lemma_power_of_two_round_trip_signed(e: nat)
    requires
        e <= 126,
    ensures
        signed_of_zequal(zequal_of_i128(pow2(e) as i128)) == pow2(e),
{
    lemma_pow2_128();
    lemma_pow2_monotone(e, 126);
    lemma_pow2_pos(e);
    lemma_exponent_of_pow2(e);
}

/// Round-trip identity on negated powers of two: a signed `-(2^e)` converts
/// to a `Zequal` and back unchanged, the most negative value (`e` of 127)
/// included.
pub proof fn lemma_power_of_two_round_trip_negative(e: nat)
    requires
        e <= 127,
    ensures
        signed_of_zequal(zequal_of_i128((-(pow2(e) as int)) as i128)) == -(pow2(e) as int),
{
    lemma_pow2_128();
    lemma_pow2_monotone(e, 127);
    lemma_pow2_pos(e);
    lemma_exponent_of_pow2(e);
}

} // verus!
