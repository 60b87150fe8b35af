//! Modular arithmetic primitives.
//!
//! Every multiplication is performed so that no intermediate value can
//! exceed the `u128` range: sums are reduced before they are combined and
//! products are built by doubling and adding modulo the modulus.  This is
//! a correctness requirement of the scheme, not an optimization, because
//! operand widths can reach the full width of the modulus.

use vstd::prelude::*;

verus! {

use vstd::arithmetic::div_mod::lemma_add_mod_noop;
use vstd::arithmetic::div_mod::lemma_add_mod_noop_right;
use vstd::arithmetic::div_mod::lemma_fundamental_div_mod_converse;
use vstd::arithmetic::div_mod::lemma_mod_bound;
use vstd::arithmetic::div_mod::lemma_mul_mod_noop_general;
use vstd::arithmetic::div_mod::lemma_small_mod;
use vstd::arithmetic::mul::lemma_mul_is_associative;
use vstd::arithmetic::power::lemma_pow0;
use vstd::arithmetic::power::lemma_pow1;
use vstd::arithmetic::power::lemma_pow_adds;
use vstd::arithmetic::power::lemma_pow_mod_noop;
use vstd::arithmetic::power::lemma_pow_multiplies;
use vstd::arithmetic::power::lemma_square_is_pow2;
use vstd::arithmetic::power::pow;

/// Mathematical value of `base^exp mod m`, the reference for every
/// exponentiation routine of the crate.
pub open spec fn pow_mod(base: int, exp: nat, m: int) -> int {
    pow(base, exp) % m
}

/// Reducing both summands of `a2 + b2 * q` modulo `m` before the final
/// reduction does not change the result.
proof fn lemma_fold_sum(a2: int, b2: int, q: int, m: int)
    requires
        m > 0,
    ensures
        ((a2 % m) + ((b2 % m) * q)) % m == (a2 + b2 * q) % m,
{
    lemma_mul_mod_noop_general(b2, q, m);
    lemma_add_mod_noop_right(a2 % m, (b2 % m) * q, m);
    lemma_add_mod_noop(a2, b2 * q, m);
}

/// The zero-exponent law: for every base and every modulus of at least
/// 2, `base^0 mod m` is exactly 1.  (For a modulus of 1 every residue,
/// this one included, is 0, which is why 1 is excluded here.)
pub proof fn lemma_power_of_zero(b: u128, m: u128)
    requires
        m >= 2,
    ensures
        pow_mod(b as int, 0, m as int) == 1,
{
    lemma_pow0(b as int);
    lemma_small_mod(1nat, m as nat);
}

/// `(a + b) % m` with no intermediate value above `u128::MAX`.
pub fn add_mod(a: u128, b: u128, m: u128) -> (r: u128)
    requires
        m > 0,
    ensures
        r == (a + b) % (m as int),
        r < m,
{
    let ar = a % m;
    let br = b % m;
    proof {
        lemma_add_mod_noop(a as int, b as int, m as int);
        lemma_mod_bound(a as int, m as int);
        lemma_mod_bound(b as int, m as int);
    }
    if ar >= m - br {
        let r = ar - (m - br);
        proof {
            lemma_fundamental_div_mod_converse(ar + br, m as int, 1, ar + br - m);
        }
        r
    } else {
        let r = ar + br;
        proof {
            lemma_small_mod((ar + br) as nat, m as nat);
        }
        r
    }
}

/// `(a * b) % m` by doubling and adding, so that the full double-width
/// product is never materialized and can never overflow.
pub fn mul_mod(a: u128, b: u128, m: u128) -> (r: u128)
    requires
        m > 0,
    ensures
        r == (a * b) % (m as int),
        r < m,
{
    let mut result: u128 = 0;
    let mut base: u128 = a % m;
    let mut e: u128 = b;
    proof {
        lemma_mul_mod_noop_general(a as int, b as int, m as int);
        lemma_mod_bound(a as int, m as int);
        lemma_mod_bound((a * b) as int, m as int);
    }
    while e > 0
        invariant
            m > 0,
            base < m,
            result < m,
            (result + base * e) % (m as int) == (a * b) % (m as int),
        decreases e,
    {
        let ghost result0 = result as int;
        let ghost base0 = base as int;
        let ghost e0 = e as int;
        let odd = e % 2 == 1;
        if odd {
            result = add_mod(result, base, m);
        }
        base = add_mod(base, base, m);
        e = e / 2;
        proof {
            let mi = m as int;
            let q = e as int;
            assert(base == (base0 + base0) % mi);
            if odd {
                assert(e0 == 2 * q + 1);
                assert(result == (result0 + base0) % mi);
                lemma_fold_sum(result0 + base0, base0 + base0, q, mi);
                assert(result0 + base0 + (base0 + base0) * q == result0 + base0 * e0)
                    by (nonlinear_arith)
                    requires
                        e0 == 2 * q + 1,
                ;
            } else {
                assert(e0 == 2 * q);
                assert(result == result0);
                lemma_small_mod(result0 as nat, m as nat);
                lemma_fold_sum(result0, base0 + base0, q, mi);
                assert(result0 + (base0 + base0) * q == result0 + base0 * e0)
                    by (nonlinear_arith)
                    requires
                        e0 == 2 * q,
                ;
            }
        }
    }
    proof {
        lemma_small_mod(result as nat, m as nat);
    }
    result
}

/// Square-and-multiply exponentiation: `base^exp mod modulus`.
///
/// For a modulus of 1 every residue is 0, which is why `power(b, 0, 1)`
/// is 0 rather than 1; for every modulus of at least 2 the exponent 0
/// yields exactly 1.
pub fn mod_exp(base: u128, exp: u128, modulus: u128) -> (r: u128)
    requires
        modulus >= 1,
    ensures
        r == pow_mod(base as int, exp as nat, modulus as int),
        r < modulus,
{
    if modulus == 1 {
        proof {
            lemma_mod_bound(pow(base as int, exp as nat), 1);
        }
        return 0;
    }
    let mut result: u128 = 1;
    let mut b: u128 = base % modulus;
    let mut e: u128 = exp;
    proof {
        lemma_pow_mod_noop(base as int, exp as nat, modulus as int);
        lemma_mod_bound(base as int, modulus as int);
    }
    while e > 0
        invariant
            modulus >= 2,
            b < modulus,
            result < modulus,
            (result * pow(b as int, e as nat)) % (modulus as int) == pow_mod(
                base as int,
                exp as nat,
                modulus as int,
            ),
        decreases e,
    {
        let ghost result0 = result as int;
        let ghost b0 = b as int;
        let ghost e0 = e as nat;
        let odd = e % 2 == 1;
        if odd {
            result = mul_mod(result, b, modulus);
        }
        b = mul_mod(b, b, modulus);
        e = e / 2;
        proof {
            let mi = modulus as int;
            let q = e as nat;
            // pow(b0, e0) in terms of the squared base.
            lemma_pow_multiplies(b0, 2, q);
            lemma_square_is_pow2(b0);
            assert(pow(b0 * b0, q) == pow(b0, (2 * q) as nat));
            // pow of the reduced square equals pow of the square, mod m.
            lemma_pow_mod_noop(b0 * b0, q, mi);
            assert(b == (b0 * b0) % mi);
            assert(pow(b as int, q) % mi == pow(b0 * b0, q) % mi);
            lemma_mul_mod_noop_general(result as int, pow(b as int, q), mi);
            lemma_mul_mod_noop_general(result as int, pow(b0 * b0, q), mi);
            lemma_small_mod(result as nat, modulus as nat);
            assert((result * pow(b as int, q)) % mi == (result * pow(b0 * b0, q)) % mi);
            if odd {
                assert(e0 == 2 * q + 1);
                lemma_pow_adds(b0, 1, (2 * q) as nat);
                lemma_pow1(b0);
                assert(pow(b0, e0) == b0 * pow(b0 * b0, q));
                assert(result == (result0 * b0) % mi);
                lemma_mul_mod_noop_general(result0 * b0, pow(b0 * b0, q), mi);
                lemma_mul_is_associative(result0, b0, pow(b0 * b0, q));
                assert((result * pow(b0 * b0, q)) % mi == (result0 * pow(b0, e0)) % mi);
            } else {
                assert(e0 == 2 * q);
                assert(result == result0);
                assert(pow(b0, e0) == pow(b0 * b0, q));
            }
        }
    }
    proof {
        lemma_pow0(b as int);
        lemma_small_mod(result as nat, modulus as nat);
    }
    result
}

} // verus!
