//! A concrete point scheme: exponentiation of a fixed base in the
//! multiplicative group modulo a 64-bit prime, serialized in the 33-byte
//! compressed-point layout. It plays the role of scalar multiplication by a
//! base point for tests and demonstrations; any other curve capability can be
//! supplied through the same [`PointScheme`] interface.

use vstd::prelude::*;
use vstd::arithmetic::div_mod::{lemma_mul_mod_noop_general, lemma_mul_mod_noop_right};
use vstd::arithmetic::mul::lemma_mul_is_associative;
use crate::big::Big;
use crate::derive::PointScheme;

verus! {

/// `b` to the power `e` modulo `m`; zero when the modulus is zero.
pub open spec fn pow_mod(b: nat, e: nat, m: nat) -> nat
    decreases e,
{
    if m == 0 {
        0
    } else if e == 0 {
        1nat % m
    } else {
        (b * pow_mod(b, (e - 1) as nat, m)) % m
    }
}

/// The result of `pow_mod` is always below a positive modulus.
proof fn lemma_pow_mod_bound(b: nat, e: nat, m: nat)
    requires
        m >= 1,
    ensures
        pow_mod(b, e, m) < m,
{
    if e == 0 {
    } else {
    }
}

/// Reducing the base first does not change the power.
proof fn lemma_pow_mod_base(b: nat, e: nat, m: nat)
    requires
        m >= 1,
    ensures
        pow_mod(b % m, e, m) == pow_mod(b, e, m),
    decreases e,
{
    if e == 0 {
    } else {
        lemma_pow_mod_base(b, (e - 1) as nat, m);
        lemma_mul_mod_noop_general(b as int, pow_mod(b, (e - 1) as nat, m) as int, m as int);
    }
}

/// Squaring the base halves the exponent.
proof fn lemma_pow_mod_square(x: nat, h: nat, m: nat)
    requires
        m >= 1,
    ensures
        pow_mod(x, 2 * h, m) == pow_mod((x * x) % m, h, m),
    decreases h,
{
    if h == 0 {
    } else {
        lemma_pow_mod_square(x, (h - 1) as nat, m);
        let p = pow_mod(x, (2 * h - 2) as nat, m);
        assert(pow_mod(x, (2 * h - 1) as nat, m) == (x * p) % m);
        assert(pow_mod(x, 2 * h, m) == (x * ((x * p) % m)) % m);
        assert((x * ((x * p) % m)) % m == (x * (x * p)) % m) by {
            lemma_mul_mod_noop_right(x as int, (x * p) as int, m as int);
        }
        assert(x * (x * p) == (x * x) * p) by {
            lemma_mul_is_associative(x as int, x as int, p as int);
        }
        assert(((x * x) * p) % m == (((x * x) % m) * p) % m) by {
            lemma_mul_mod_noop_general((x * x) as int, p as int, m as int);
        }
        assert((((x * x) % m) * p) % m == pow_mod((x * x) % m, h, m)) by {
            lemma_mul_mod_noop_right(((x * x) % m) as int, p as int, m as int);
        }
    }
}

/// `(a * b) % m` with the product formed in 128 bits so it cannot overflow.
fn mul_mod(a: u64, b: u64, m: u64) -> (r: u64)
    requires
        m >= 1,
        a < m,
        b < m,
    ensures
        r as nat == ((a as nat) * (b as nat)) % (m as nat),
        r < m,
{
    proof {
        assert((a as int) * (b as int) < 0x1_0000_0000_0000_0000 * 0x1_0000_0000_0000_0000)
            by (nonlinear_arith)
            requires
                a < 0x1_0000_0000_0000_0000 && b < 0x1_0000_0000_0000_0000,
        ;
    }
    let prod: u128 = (a as u128) * (b as u128);
    let r: u128 = prod % (m as u128);
    r as u64
}

/// Square-and-multiply exponentiation: `base` to the power `exp` modulo
/// `modulus`, for an exponent of any size.
pub fn pow_mod_exec(base: u64, exp: &Big, modulus: u64) -> (r: u64)
    ensures
        r == pow_mod(base as nat, exp@, modulus as nat),
{
    if modulus == 0 {
        return 0;
    }
    let two = Big::from_u64(2);
    let mut r: u64 = 1 % modulus;
    let mut x: u64 = base % modulus;
    let mut e = exp.clone_big();
    proof {
        let m = modulus as nat;
        lemma_pow_mod_base(base as nat, exp@, m);
        let pv = pow_mod((base as nat) % m, exp@, m);
        lemma_pow_mod_bound((base as nat) % m, exp@, m);
        assert(((1nat % m) * pv) % m == (1 * pv) % m) by {
            vstd::arithmetic::div_mod::lemma_mul_mod_noop_left(1, pv as int, m as int);
        }
        vstd::arithmetic::div_mod::lemma_small_mod(pv, m);
    }
    while !e.is_zero()
        invariant
            modulus >= 1,
            two@ == 2,
            r < modulus,
            x < modulus,
            pow_mod(base as nat, exp@, modulus as nat) == ((r as nat) * pow_mod(
                x as nat,
                e@,
                modulus as nat,
            )) % (modulus as nat),
        decreases e@,
    {
        let ghost m = modulus as nat;
        let ghost e0 = e@;
        let ghost r0 = r as nat;
        let ghost x0 = x as nat;
        let (q, rem) = e.divmod_big(&two);
        let ghost p = pow_mod(x0, q@, m);
        proof {
            lemma_pow_mod_bound(x0, q@, m);
        }
        if !rem.is_zero() {
            r = mul_mod(r, x, modulus);
            proof {
                // e0 = 2q + 1: peel the odd factor, then square the base.
                assert(e0 == 2 * q@ + 1);
                lemma_pow_mod_square(x0, q@, m);
                assert(pow_mod(x0, e0, m) == (x0 * pow_mod(x0, (e0 - 1) as nat, m)) % m);
                assert(pow_mod(x0, (e0 - 1) as nat, m) == pow_mod((x0 * x0) % m, q@, m));
                let pp = pow_mod((x0 * x0) % m, q@, m);
                assert((r0 * ((x0 * pp) % m)) % m == (r0 * (x0 * pp)) % m) by {
                    lemma_mul_mod_noop_right(r0 as int, (x0 * pp) as int, m as int);
                }
                assert(r0 * (x0 * pp) == (r0 * x0) * pp) by {
                    lemma_mul_is_associative(r0 as int, x0 as int, pp as int);
                }
                assert(((r0 * x0) * pp) % m == (((r0 * x0) % m) * pp) % m) by {
                    lemma_mul_mod_noop_general((r0 * x0) as int, pp as int, m as int);
                }
            }
        } else {
            proof {
                assert(e0 == 2 * q@);
                lemma_pow_mod_square(x0, q@, m);
            }
        }
        x = mul_mod(x, x, modulus);
        e = q;
    }
    proof {
        assert(pow_mod(x as nat, 0nat, modulus as nat) == 1nat % (modulus as nat));
        lemma_mul_mod_noop_right(r as int, 1, modulus as int);
        assert(((r as nat) * (1nat % (modulus as nat))) % (modulus as nat) == (r as nat) % (
        modulus as nat)) by {
            lemma_mul_mod_noop_right(r as int, 1, modulus as int);
        }
        vstd::arithmetic::div_mod::lemma_small_mod(r as nat, modulus as nat);
    }
    r
}

/// The 33-byte compressed-point layout used by [`ModExpScheme`]: an even-y
/// tag byte, 24 zero bytes, then the group element big-endian.
pub open spec fn compressed_point(x: u64) -> Seq<u8> {
    seq![2u8] + Seq::new(24, |i: int| 0u8) + seq![
        (x >> 56) as u8,
        (x >> 48) as u8,
        (x >> 40) as u8,
        (x >> 32) as u8,
        (x >> 24) as u8,
        (x >> 16) as u8,
        (x >> 8) as u8,
        x as u8,
    ]
}

/// Exponentiation of a fixed generator modulo a 64-bit prime: the scalar
/// `k` maps to the compressed serialization of `generator^k mod modulus`.
pub struct ModExpScheme {
    pub modulus: u64,
    pub generator: u64,
}

impl PointScheme for ModExpScheme {
    open spec fn order_spec(&self) -> nat {
        self.modulus as nat
    }

    open spec fn point_spec(&self, k: nat) -> Seq<u8> {
        compressed_point(pow_mod(self.generator as nat, k, self.modulus as nat) as u64)
    }

    fn curve_order(&self) -> (r: Big) {
        Big::from_u64(self.modulus)
    }

    fn derive_point(&self, k: &Big) -> (r: Vec<u8>) {
        let x = pow_mod_exec(self.generator, k, self.modulus);
        proof {
            lemma_pow_mod_bound(self.generator as nat, k@, self.modulus as nat);
        }
        let mut out: Vec<u8> = Vec::new();
        out.push(2u8);
        let mut i: usize = 0;
        while i < 24
            invariant
                i <= 24,
                out@ =~= seq![2u8] + Seq::new(i as nat, |t: int| 0u8),
            decreases 24 - i,
        {
            out.push(0u8);
            proof {
                assert(out@ =~= seq![2u8] + Seq::new((i + 1) as nat, |t: int| 0u8));
            }
            i = i + 1;
        }
        out.push(#[verifier::truncate] ((x >> 56) as u8));
        out.push(#[verifier::truncate] ((x >> 48) as u8));
        out.push(#[verifier::truncate] ((x >> 40) as u8));
        out.push(#[verifier::truncate] ((x >> 32) as u8));
        out.push(#[verifier::truncate] ((x >> 24) as u8));
        out.push(#[verifier::truncate] ((x >> 16) as u8));
        out.push(#[verifier::truncate] ((x >> 8) as u8));
        out.push(#[verifier::truncate] (x as u8));
        proof {
            assert(out@ =~= compressed_point(x));
        }
        out
    }
}

} // verus!
