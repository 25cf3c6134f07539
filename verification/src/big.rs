//! Arbitrary-precision natural numbers.
//!
//! A [`Big`] holds its magnitude as base-2^32 limbs, least significant first;
//! its view is the mathematical value of those limbs. The arithmetic itself is
//! carried out by `num_bigint::BigUint`, whose limb layout (`BigUint::new` /
//! `BigUint::to_u32_digits`) is the same little-endian base-2^32 encoding, so
//! each trusted wrapper only repackages the limbs around one call.

use vstd::prelude::*;

verus! {

/// Value of a little-endian sequence of base-2^32 limbs.
pub open spec fn limbs_val(s: Seq<u32>) -> nat
    decreases s.len(),
{
    if s.len() == 0 {
        0
    } else {
        s[0] as nat + 0x1_0000_0000 * limbs_val(s.skip(1))
    }
}

/// An arbitrary-precision natural number: the scalar values, keyspace sizes
/// and second counts this library works with.
pub struct Big {
    limbs: Vec<u32>,
}

impl View for Big {
    type V = nat;

    closed spec fn view(&self) -> nat {
        limbs_val(self.limbs@)
    }
}

impl Big {
    /// The number zero.
    pub fn zero() -> (r: Big)
        ensures
            r@ == 0,
    {
        Big { limbs: Vec::new() }
    }

    /// Embeds a machine word.
    pub fn from_u64(x: u64) -> (r: Big)
        ensures
            r@ == x,
    {
        let lo: u32 = #[verifier::truncate] ((x & 0xFFFF_FFFF) as u32);
        let hi: u32 = #[verifier::truncate] ((x >> 32) as u32);
        let mut limbs: Vec<u32> = Vec::new();
        limbs.push(lo);
        limbs.push(hi);
        proof {
            assert(limbs@ == seq![lo, hi]);
            assert(limbs_val(seq![lo, hi]) == lo as nat + 0x1_0000_0000 * limbs_val(seq![hi])) by {
                assert(seq![lo, hi].skip(1) =~= seq![hi]);
            }
            assert(limbs_val(seq![hi]) == hi as nat + 0x1_0000_0000 * limbs_val(
                Seq::<u32>::empty(),
            )) by {
                assert(seq![hi].skip(1) =~= Seq::<u32>::empty());
            }
            assert(x == lo as nat + 0x1_0000_0000 * (hi as nat)) by (bit_vector)
                requires
                    lo == (x & 0xFFFF_FFFF) as u32 && hi == (x >> 32) as u32,
            ;
        }
        Big { limbs }
    }

    /// A copy with the same value.
    pub fn clone_big(&self) -> (r: Big)
        ensures
            r@ == self@,
    {
        let mut limbs: Vec<u32> = Vec::new();
        let mut i: usize = 0;
        while i < self.limbs.len()
            invariant
                i <= self.limbs.len(),
                limbs@ =~= self.limbs@.take(i as int),
            decreases self.limbs.len() - i,
        {
            limbs.push(self.limbs[i]);
            i = i + 1;
        }
        proof {
            assert(limbs@ =~= self.limbs@);
        }
        Big { limbs }
    }

    /// Relies on `num_traits::Zero::is_zero` for `BigUint`: true exactly of
    /// the value zero.
    #[verifier::external_body]
    pub fn is_zero(&self) -> (r: bool)
        ensures
            r == (self@ == 0),
    {
        num_traits::Zero::is_zero(&num_bigint::BigUint::new(self.limbs.clone()))
    }

    /// Relies on `BigUint`'s `Add`: the sum of the two values.
    #[verifier::external_body]
    pub fn add_big(&self, other: &Big) -> (r: Big)
        ensures
            r@ == self@ + other@,
    {
        let a = num_bigint::BigUint::new(self.limbs.clone());
        let b = num_bigint::BigUint::new(other.limbs.clone());
        Big { limbs: (a + b).to_u32_digits() }
    }

    /// Relies on `BigUint`'s `Sub`: the difference of the two values; the
    /// subtrahend may not exceed the minuend (`BigUint` panics there).
    #[verifier::external_body]
    pub fn sub_big(&self, other: &Big) -> (r: Big)
        requires
            other@ <= self@,
        ensures
            r@ == self@ - other@,
    {
        let a = num_bigint::BigUint::new(self.limbs.clone());
        let b = num_bigint::BigUint::new(other.limbs.clone());
        Big { limbs: (a - b).to_u32_digits() }
    }

    /// Relies on `BigUint`'s `Mul`: the product of the two values.
    #[verifier::external_body]
    pub fn mul_big(&self, other: &Big) -> (r: Big)
        ensures
            r@ == self@ * other@,
    {
        let a = num_bigint::BigUint::new(self.limbs.clone());
        let b = num_bigint::BigUint::new(other.limbs.clone());
        Big { limbs: (a * b).to_u32_digits() }
    }

    /// Relies on `BigUint`'s `Div` and `Rem`: floor quotient and remainder;
    /// the divisor may not be zero (`BigUint` panics there).
    #[verifier::external_body]
    pub fn divmod_big(&self, other: &Big) -> (r: (Big, Big))
        requires
            other@ > 0,
        ensures
            r.0@ == self@ / other@,
            r.1@ == self@ % other@,
    {
        let a = num_bigint::BigUint::new(self.limbs.clone());
        let b = num_bigint::BigUint::new(other.limbs.clone());
        let q = &a / &b;
        let rem = &a % &b;
        (Big { limbs: q.to_u32_digits() }, Big { limbs: rem.to_u32_digits() })
    }

    /// Relies on `BigUint`'s `Ord`: ordered by numeric value.
    #[verifier::external_body]
    pub fn le_big(&self, other: &Big) -> (r: bool)
        ensures
            r == (self@ <= other@),
    {
        num_bigint::BigUint::new(self.limbs.clone()) <= num_bigint::BigUint::new(
            other.limbs.clone(),
        )
    }

    /// Relies on `num_traits::ToPrimitive::to_u64` for `BigUint`: the value
    /// as a machine word when it fits, `None` otherwise.
    #[verifier::external_body]
    pub fn to_u64(&self) -> (r: Option<u64>)
        ensures
            self@ < 0x1_0000_0000_0000_0000 ==> r == Some(self@ as u64),
            self@ >= 0x1_0000_0000_0000_0000 ==> r is None,
    {
        num_traits::ToPrimitive::to_u64(&num_bigint::BigUint::new(self.limbs.clone()))
    }
}

} // verus!
