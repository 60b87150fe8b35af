//! Deterministic Miller-Rabin primality testing and Euler's criterion.
//!
//! The witness sets are fixed by magnitude thresholds, which makes the
//! test provably correct only below roughly `3.3 * 10^14`.  For larger
//! values (the scheme targets moduli of about 128 bits) the test is only
//! probabilistically correct despite the fixed witness list; the
//! contracts of this module therefore speak of the Miller-Rabin
//! predicate `mr_prime` itself, not of true primality.

use vstd::prelude::*;

verus! {

use crate::arith::mod_exp;
use crate::arith::mul_mod;
use crate::arith::pow_mod;
use vstd::arithmetic::div_mod::lemma_mul_mod_noop_general;
use vstd::arithmetic::mul::lemma_mul_increases;
use vstd::arithmetic::mul::lemma_mul_is_commutative;
use vstd::arithmetic::power2::lemma_pow2_pos;
use vstd::arithmetic::power::lemma_pow_adds;
use vstd::arithmetic::power::lemma_pow_increases;
use vstd::arithmetic::power::pow;
use vstd::arithmetic::power2::lemma2_to64;
use vstd::arithmetic::power2::lemma_pow2;
use vstd::arithmetic::power2::lemma_pow2_adds;
use vstd::arithmetic::power2::lemma_pow2_unfold;
use vstd::arithmetic::power2::pow2;

/// The odd factor left after dividing all powers of two out of `n`.
pub open spec fn odd_part(n: nat) -> nat
    decreases n,
{
    if n == 0 {
        0
    } else if n % 2 == 1 {
        n
    } else {
        odd_part(n / 2)
    }
}

/// The number of factors of two in `n`.
pub open spec fn two_exponent(n: nat) -> nat
    decreases n,
{
    if n == 0 {
        0
    } else if n % 2 == 1 {
        0
    } else {
        two_exponent(n / 2) + 1
    }
}

/// `n` is a strong probable prime to base `a`: with `n - 1 = d * 2^s`
/// and `d` odd, either `a^d = 1 (mod n)`, or `a^(d * 2^i) = n - 1
/// (mod n)` for some `i < s`.
pub open spec fn witness_passes(n: u128, a: u128) -> bool
    recommends
        n >= 3,
{
    let d = odd_part((n - 1) as nat);
    let s = two_exponent((n - 1) as nat);
    ||| pow_mod(a as int, d, n as int) == 1
    ||| exists|i: nat|
        i < s && #[trigger] pow_mod(a as int, d * pow2(i), n as int) == n - 1
}

/// A base counts in favour of `n` if it is out of range or `n` is a
/// strong probable prime to it.
pub open spec fn base_accepted(n: u128, a: u128) -> bool {
    a >= n || witness_passes(n, a)
}

/// The fixed witness set used for a candidate of magnitude `n`.
pub open spec fn mr_bases(n: u128) -> Seq<u128> {
    if n < 2047 {
        seq![2u128]
    } else if n < 1373653 {
        seq![2u128, 3u128]
    } else if n < 9080191 {
        seq![31u128, 73u128]
    } else if n < 25326001 {
        seq![2u128, 3u128, 5u128]
    } else if n < 3215031751 {
        seq![2u128, 3u128, 5u128, 7u128]
    } else if n < 4759123141 {
        seq![2u128, 7u128, 61u128]
    } else {
        seq![2u128, 325u128, 9375u128, 28178u128, 450775u128, 9780504u128, 1795265022u128]
    }
}

/// The Miller-Rabin predicate: 2 and 3 are prime, other small or even
/// values are not, and every other candidate must be a strong probable
/// prime to each in-range base of its witness set.
pub open spec fn mr_prime(n: u128) -> bool {
    if n == 2 || n == 3 {
        true
    } else if n <= 1 || n % 2 == 0 {
        false
    } else {
        forall|j: int|
            0 <= j < mr_bases(n).len() ==> base_accepted(n, #[trigger] mr_bases(n)[j])
    }
}

/// A power of two that divides a 128-bit value has exponent at most 127.
pub(crate) proof fn lemma_two_adic_bound(s: nat, d: int, n: int)
    requires
        d >= 1,
        n <= 0xffffffffffffffffffffffffffffffff,
        pow2(s) * d == n,
    ensures
        s <= 127,
{
    if s >= 128 {
        lemma_pow2_pos(s);
        lemma_pow_increases(2, 128, s);
        lemma_pow2(s);
        lemma_pow2(128);
        lemma_pow2_adds(64, 64);
        lemma2_to64();
        assert(pow2(128) == 0x100000000000000000000000000000000);
        lemma_mul_increases(d, pow2(s) as int);
        lemma_mul_is_commutative(pow2(s) as int, d);
        assert(false);
    }
}

/// Euler's criterion: 0 trivially has a root, and otherwise `a` has a
/// square root modulo `p` exactly when `a^((p-1)/2) = 1 (mod p)`.
pub open spec fn has_sqrt_spec(a: int, p: int) -> bool {
    a == 0 || pow_mod(a, (((p - 1) as int) / 2) as nat, p) == 1
}

/// Whether `a` passes Euler's criterion modulo `p`.
pub fn has_sqrt(a: u128, p: u128) -> (r: bool)
    requires
        p >= 1,
    ensures
        r == has_sqrt_spec(a as int, p as int),
{
    if a == 0 {
        true
    } else {
        mod_exp(a, (p - 1) / 2, p) == 1
    }
}

/// The witness set as a vector.
fn mr_bases_exec(n: u128) -> (r: Vec<u128>)
    ensures
        r@ == mr_bases(n),
{
    let r: Vec<u128> = if n < 2047 {
        vec![2]
    } else if n < 1373653 {
        vec![2, 3]
    } else if n < 9080191 {
        vec![31, 73]
    } else if n < 25326001 {
        vec![2, 3, 5]
    } else if n < 3215031751 {
        vec![2, 3, 5, 7]
    } else if n < 4759123141 {
        vec![2, 7, 61]
    } else {
        vec![2, 325, 9375, 28178, 450775, 9780504, 1795265022]
    };
    proof {
        assert(r@ =~= mr_bases(n));
    }
    r
}

/// One squaring keeps the running value equal to the power it stands for.
pub(crate) proof fn lemma_mod_square(a: int, e: nat, n: int)
    requires
        n > 0,
    ensures
        (pow_mod(a, e, n) * pow_mod(a, e, n)) % n == pow_mod(a, e + e, n),
{
    lemma_mul_mod_noop_general(pow(a, e), pow(a, e), n);
    lemma_pow_adds(a, e, e);
}

/// The strong-probable-prime check for a single in-range base.
fn witness_check(n: u128, a: u128, d: u128, s: u32) -> (r: bool)
    requires
        n >= 5,
        n % 2 == 1,
        a < n,
        d == odd_part((n - 1) as nat),
        s == two_exponent((n - 1) as nat),
        s >= 1,
    ensures
        r == witness_passes(n, a),
{
    let mut x = mod_exp(a, d, n);
    if x == 1 {
        return true;
    }
    if x == n - 1 {
        proof {
            lemma2_to64();
            assert(pow_mod(a as int, (d as nat) * pow2(0), n as int) == n - 1);
        }
        return true;
    }
    let ghost dn = d as nat;
    let mut i: u32 = 1;
    proof {
        lemma2_to64();
        assert(dn * pow2(0) == dn);
    }
    while i < s
        invariant
            1 <= i <= s,
            n >= 5,
            dn == odd_part((n - 1) as nat),
            s == two_exponent((n - 1) as nat),
            x == pow_mod(a as int, dn * pow2((i - 1) as nat), n as int),
            x < n,
            pow_mod(a as int, dn, n as int) != 1,
            forall|k: nat| k < i ==> #[trigger] pow_mod(a as int, dn * pow2(k), n as int) != n
                - 1,
        decreases s - i,
    {
        let ghost e_prev = dn * pow2((i - 1) as nat);
        x = mul_mod(x, x, n);
        proof {
            lemma_mod_square(a as int, e_prev, n as int);
            lemma_pow2_unfold(i as nat);
            assert(dn * pow2(i as nat) == e_prev + e_prev) by (nonlinear_arith)
                requires
                    pow2(i as nat) == 2 * pow2((i - 1) as nat),
                    e_prev == dn * pow2((i - 1) as nat),
            ;
            assert(x == pow_mod(a as int, dn * pow2(i as nat), n as int));
        }
        if x == n - 1 {
            return true;
        }
        i = i + 1;
    }
    proof {
        assert(!witness_passes(n, a));
    }
    false
}

/// Deterministic Miller-Rabin test against the fixed witness set.
///
/// The result is exactly the `mr_prime` predicate; it coincides with
/// true primality for all candidates below the thresholds for which the
/// witness sets are known to be complete, and is only probabilistically
/// correct above them.
pub fn is_prime(n: u128) -> (r: bool)
    ensures
        r == mr_prime(n),
{
    if n == 2 || n == 3 {
        return true;
    }
    if n <= 1 || n % 2 == 0 {
        return false;
    }
    // Factor n - 1 as d * 2^s with d odd.
    let mut d: u128 = n - 1;
    let mut s: u32 = 0;
    proof {
        lemma2_to64();
    }
    while d % 2 == 0
        invariant
            1 <= d <= n - 1,
            n >= 5,
            pow2(s as nat) * d == n - 1,
            odd_part((n - 1) as nat) == odd_part(d as nat),
            two_exponent((n - 1) as nat) == two_exponent(d as nat) + s,
        decreases d,
    {
        proof {
            lemma_two_adic_bound(s as nat, d as int, (n - 1) as int);
            lemma_pow2_unfold((s + 1) as nat);
            assert(pow2((s + 1) as nat) * (d as int / 2) == pow2(s as nat) * d)
                by (nonlinear_arith)
                requires
                    pow2((s + 1) as nat) == 2 * pow2(s as nat),
                    d % 2 == 0,
                    d >= 1,
            ;
        }
        d = d / 2;
        s = s + 1;
    }
    let mut result = true;
    let bases = mr_bases_exec(n);
    let mut bi: usize = 0;
    while bi < bases.len()
        invariant
            bases@ == mr_bases(n),
            bi <= bases@.len(),
            n >= 5,
            n % 2 == 1,
            d == odd_part((n - 1) as nat),
            s == two_exponent((n - 1) as nat),
            s >= 1,
            forall|j: int| 0 <= j < bi ==> base_accepted(n, #[trigger] bases@[j]),
        decreases bases@.len() - bi,
    {
        let a = bases[bi];
        if a < n {
            if !witness_check(n, a, d, s) {
                proof {
                    assert(!base_accepted(n, mr_bases(n)[bi as int]));
                }
                return false;
            }
        }
        bi = bi + 1;
    }
    true
}

} // verus!
