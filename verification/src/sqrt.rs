//! The modular square-root solver (Tonelli-Shanks).
//!
//! The solver is a pure, deterministic function of the value and the
//! modulus, pinned exactly by `sqrt_spec`.  Every produced root is
//! checked against its square before it is returned, so a `Some` result
//! always carries a genuine root; `None` is returned for Euler
//! non-residues and in the algorithm's own corner cases.

use vstd::prelude::*;

verus! {

use crate::arith::mod_exp;
use crate::arith::mul_mod;
use crate::arith::pow_mod;
use crate::engine::LaiCryptoEngine;
use crate::primality::lemma_mod_square;
use crate::primality::lemma_two_adic_bound;
use crate::primality::odd_part;
use crate::primality::two_exponent;
use crate::trace::sat_add_u32;
use vstd::arithmetic::div_mod::lemma_fundamental_div_mod;
use vstd::arithmetic::div_mod::lemma_small_mod;
use vstd::arithmetic::mul::lemma_mul_increases;
use vstd::arithmetic::mul::lemma_mul_is_commutative;
use vstd::arithmetic::div_mod::lemma_mod_bound;
use vstd::arithmetic::power::lemma_pow_increases;
use vstd::arithmetic::power::pow;
use vstd::arithmetic::power::lemma_square_is_pow2;
use vstd::arithmetic::power2::lemma2_to64;
use vstd::arithmetic::power2::lemma2_to64_rest;
use vstd::arithmetic::power2::lemma_pow2;
use vstd::arithmetic::power2::lemma_pow2_adds;
use vstd::arithmetic::power2::lemma_pow2_pos;
use vstd::arithmetic::power2::lemma_pow2_strictly_increases;
use vstd::arithmetic::power2::lemma_pow2_unfold;
use vstd::arithmetic::power2::pow2;

/// The least `z` at or above `lo` and below `p` whose Euler power is
/// `p - 1` (the first quadratic non-residue a linear scan finds), or `p`
/// itself when the scan exhausts the field.
pub open spec fn first_nonresidue_from(p: int, lo: int) -> int
    decreases p - lo,
{
    if lo >= p {
        p
    } else if pow_mod(lo, ((p - 1) / 2) as nat, p) == p - 1 {
        lo
    } else {
        first_nonresidue_from(p, lo + 1)
    }
}

/// The least index `j` in `[lo, m)` with `t^(2^j) = 1 (mod p)`, or `m`
/// when there is none: the scan inside one refinement round.
pub open spec fn first_unit_index(t: int, p: int, lo: nat, m: nat) -> nat
    decreases m - lo,
{
    if lo >= m {
        m
    } else if pow_mod(t, pow2(lo), p) == 1 {
        lo
    } else {
        first_unit_index(t, p, lo + 1, m)
    }
}

/// The iterated refinement of `(m, c, t, r)`: each round finds the least
/// `i < m` with `t^(2^i) = 1`, gives up when there is none, and
/// otherwise strictly decreases `m`, which bounds the recursion.
pub open spec fn ts_loop(m: nat, c: int, t: int, r: int, p: int) -> Option<int>
    decreases m,
{
    if t == 1 {
        Some(r)
    } else {
        let i = first_unit_index(t, p, 1, m);
        if i >= m {
            None
        } else {
            let b = pow_mod(c, pow2((m - i - 1) as nat), p);
            let c2 = (b * b) % p;
            ts_loop(i, c2, (t * c2) % p, (r * b) % p, p)
        }
    }
}

/// The square-root result for `value` modulo an odd `p`: 0 for 0, `None`
/// for Euler non-residues, the direct power for `p = 3 (mod 4)`, and the
/// Tonelli-Shanks refinement otherwise; any candidate root is kept only
/// if its square really is `value`.
pub open spec fn sqrt_spec(value: u128, p: u128) -> Option<u128>
    recommends
        p >= 3,
        p % 2 == 1,
{
    let pi = p as int;
    let a = (value as int) % pi;
    if a == 0 {
        Some(0u128)
    } else if pow_mod(a, ((p - 1) / 2) as nat, pi) == pi - 1 {
        None
    } else if p % 4 == 3 {
        let r = pow_mod(a, ((p + 1) / 4) as nat, pi);
        if (r * r) % pi == a {
            Some(r as u128)
        } else {
            None
        }
    } else {
        let q = odd_part((p - 1) as nat);
        let s = two_exponent((p - 1) as nat);
        let z = first_nonresidue_from(pi, 2);
        if z >= pi {
            None
        } else {
            match ts_loop(
                s,
                pow_mod(z, q, pi),
                pow_mod(a, q, pi),
                pow_mod(a, (q + 1) / 2, pi),
                pi,
            ) {
                Some(r) => if (r * r) % pi == a {
                    Some(r as u128)
                } else {
                    None
                },
                None => None,
            }
        }
    }
}

/// An input divisible by the modulus has square root 0.
pub proof fn lemma_sqrt_of_zero(value: u128, p: u128)
    requires
        p >= 3,
        (value as int) % (p as int) == 0,
    ensures
        sqrt_spec(value, p) == Some(0u128),
{
}

/// Every value the refinement can report lies in the field.
proof fn lemma_ts_loop_range(m: nat, c: int, t: int, r: int, p: int)
    requires
        p > 0,
        0 <= r < p,
    ensures
        match ts_loop(m, c, t, r, p) {
            Some(rv) => 0 <= rv < p,
            None => true,
        },
    decreases m,
{
    if t != 1 {
        let i = first_unit_index(t, p, 1, m);
        if i < m {
            let b = pow_mod(c, pow2((m - i - 1) as nat), p);
            let c2 = (b * b) % p;
            lemma_mod_bound(r * b, p);
            lemma_ts_loop_range(i, c2, (t * c2) % p, (r * b) % p, p);
        }
    }
}

/// Every root the solver reports is genuine: a `Some(r)` of `sqrt_spec`
/// satisfies `r * r = value (mod p)` and lies in the field.
pub proof fn lemma_sqrt_root_valid(value: u128, p: u128)
    requires
        p >= 3,
    ensures
        match sqrt_spec(value, p) {
            Some(r) => r < p && (r * r) % (p as int) == (value as int) % (p as int),
            None => true,
        },
{
    let pi = p as int;
    let av = (value as int) % pi;
    lemma_mod_bound(value as int, pi);
    if av == 0 {
        lemma_small_mod(0nat, p as nat);
    } else if pow_mod(av, ((p - 1) / 2) as nat, pi) == pi - 1 {
    } else if p % 4 == 3 {
        lemma_mod_bound(pow(av, ((p + 1) / 4) as nat), pi);
    } else {
        let q = odd_part((p - 1) as nat);
        let s = two_exponent((p - 1) as nat);
        let z = first_nonresidue_from(pi, 2);
        if z < pi {
            lemma_mod_bound(pow(av, (q + 1) / 2), pi);
            lemma_ts_loop_range(
                s,
                pow_mod(z, q, pi),
                pow_mod(av, q, pi),
                pow_mod(av, (q + 1) / 2, pi),
                pi,
            );
        }
    }
}

/// A scan that rejected every index below `i` and accepts `i` (when `i`
/// is in range) yields exactly `i`, and `m` when the range is exhausted.
proof fn lemma_scan_value(t: int, p: int, lo: nat, m: nat, i: nat)
    requires
        lo <= i <= m,
        forall|j: nat| lo <= j < i ==> #[trigger] pow_mod(t, pow2(j), p) != 1,
        i < m ==> pow_mod(t, pow2(i), p) == 1,
    ensures
        first_unit_index(t, p, lo, m) == if i < m {
            i as int
        } else {
            m as int
        },
    decreases i - lo,
{
    if lo < i {
        assert(pow_mod(t, pow2(lo), p) != 1);
        lemma_scan_value(t, p, (lo + 1) as nat, m, i);
    }
}

/// `pow2(127)` as a constant.
proof fn lemma_pow2_127()
    ensures
        pow2(127) == 0x80000000000000000000000000000000,
{
    lemma2_to64();
    lemma2_to64_rest();
    lemma_pow2_adds(64, 63);
}

/// `2^k` as an executable value.
fn pow2_exec(k: u32) -> (r: u128)
    requires
        k <= 127,
    ensures
        r == pow2(k as nat),
{
    let mut r: u128 = 1;
    let mut j: u32 = 0;
    proof {
        lemma2_to64();
    }
    while j < k
        invariant
            j <= k <= 127,
            r == pow2(j as nat),
        decreases k - j,
    {
        proof {
            lemma_pow2_127();
            lemma_pow2_strictly_increases(j as nat, 127);
            lemma_pow2_unfold((j + 1) as nat);
        }
        r = r * 2;
        j = j + 1;
    }
    r
}

impl LaiCryptoEngine {
    /// Tonelli-Shanks square root modulo the engine's prime.
    ///
    /// Deterministic in `(value, p)`: the result equals `sqrt_spec`.
    /// A `Some(r)` always satisfies `r * r = value (mod p)`, and an input
    /// divisible by `p` always yields `Some(0)`.  Only the diagnostic
    /// scan counter of the metrics changes.
    pub fn sqrt_mod(&mut self, value: u128) -> (res: Option<u128>)
        requires
            old(self).p >= 3,
            old(self).p % 2 == 1,
        ensures
            final(self).p == old(self).p,
            final(self).a == old(self).a,
            final(self).p0 == old(self).p0,
            final(self).trace@ == old(self).trace@,
            final(self).max_attempts == old(self).max_attempts,
            final(self).metrics.t_transform_count == old(self).metrics.t_transform_count,
            final(self).metrics.operation_history@ == old(self).metrics.operation_history@,
            final(self).metrics.sqrt_attempts >= old(self).metrics.sqrt_attempts,
            res == sqrt_spec(value, old(self).p),
            match res {
                Some(r) => r < old(self).p && (r * r) % (old(self).p as int) == (
                value as int) % (old(self).p as int),
                None => true,
            },
            (value as int) % (old(self).p as int) == 0 ==> res == Some(0u128),
    {
        let p = self.p;
        let ghost pi = p as int;
        let a = value % p;
        if a == 0 {
            proof {
                lemma_small_mod(0nat, p as nat);
            }
            return Some(0);
        }
        let eul = mod_exp(a, (p - 1) / 2, p);
        if eul == p - 1 {
            return None;
        }
        if p % 4 == 3 {
            let r = mod_exp(a, (p - 3) / 4 + 1, p);
            proof {
                lemma_fundamental_div_mod(pi, 4);
                assert(pi - 3 == 4 * (pi / 4));
                assert(pi + 1 == 4 * (pi / 4 + 1));
                assert((pi - 3) / 4 == pi / 4);
                assert((pi + 1) / 4 == pi / 4 + 1);
            }
            let rr = mul_mod(r, r, p);
            if rr == a {
                return Some(r);
            } else {
                return None;
            }
        }
        // Factor p - 1 as q * 2^s with q odd.
        let mut q: u128 = p - 1;
        let mut s_count: u32 = 0;
        proof {
            lemma2_to64();
        }
        while q % 2 == 0
            invariant
                *self == *old(self),
                p == self.p,
                pi == p as int,
                1 <= q <= p - 1,
                p >= 3,
                p % 2 == 1,
                pow2(s_count as nat) * q == p - 1,
                odd_part((p - 1) as nat) == odd_part(q as nat),
                two_exponent((p - 1) as nat) == two_exponent(q as nat) + s_count,
            decreases q,
        {
            proof {
                lemma_two_adic_bound(s_count as nat, q as int, (p - 1) as int);
                lemma_pow2_unfold((s_count + 1) as nat);
                assert(pow2((s_count + 1) as nat) * (q as int / 2) == pow2(s_count as nat) * q)
                    by (nonlinear_arith)
                    requires
                        pow2((s_count + 1) as nat) == 2 * pow2(s_count as nat),
                        q % 2 == 0,
                        q >= 1,
                ;
            }
            q = q / 2;
            s_count = s_count + 1;
        }
        proof {
            lemma_two_adic_bound(s_count as nat, q as int, (p - 1) as int);
            // p odd means p - 1 is even, so at least one factor of two.
            assert(two_exponent((p - 1) as nat) >= 1);
            assert(s_count >= 1);
        }
        // Find the first quadratic non-residue by linear scan from 2.
        let mut z: u128 = 2;
        let mut attempts: u32 = 0;
        while z < p
            invariant_except_break
                *self == *old(self),
                p == self.p,
                pi == p as int,
                2 <= z <= p,
                p >= 3,
                first_nonresidue_from(pi, 2) == first_nonresidue_from(pi, z as int),
            ensures
                *self == *old(self),
                p == self.p,
                pi == p as int,
                2 <= z <= p,
                first_nonresidue_from(pi, 2) == first_nonresidue_from(pi, z as int),
                z < p ==> pow_mod(z as int, ((p - 1) / 2) as nat, pi) == pi - 1,
            decreases p - z,
        {
            let e = mod_exp(z, (p - 1) / 2, p);
            if e == p - 1 {
                break ;
            }
            proof {
                assert(first_nonresidue_from(pi, z as int) == first_nonresidue_from(
                    pi,
                    z as int + 1,
                ));
            }
            attempts = sat_add_u32(attempts, 1);
            z = z + 1;
        }
        if z == p {
            proof {
                assert(first_nonresidue_from(pi, pi) == pi);
            }
            self.metrics.sqrt_attempts = sat_add_u32(self.metrics.sqrt_attempts, attempts);
            return None;
        }
        proof {
            assert(first_nonresidue_from(pi, z as int) == z as int);
        }
        // The refinement of (m, c, t, r) until t reaches 1.
        let mut m: u32 = s_count;
        let mut c = mod_exp(z, q, p);
        let mut t = mod_exp(a, q, p);
        let mut r = mod_exp(a, (q + 1) / 2, p);
        let ghost target = ts_loop(m as nat, c as int, t as int, r as int, pi);
        proof {
            assert(sqrt_spec(value, p) == (match target {
                Some(rv) => if (rv * rv) % pi == a {
                    Some(rv as u128)
                } else {
                    None
                },
                None => None,
            }));
        }
        while t != 1
            invariant
                *self == *old(self),
                p == self.p,
                pi == p as int,
                p >= 3,
                c < p,
                t < p,
                r < p,
                a == (value as int) % pi,
                a != 0,
                1 <= m <= 127,
                ts_loop(m as nat, c as int, t as int, r as int, pi) == target,
                sqrt_spec(value, p) == (match target {
                    Some(rv) => if (rv * rv) % pi == a {
                        Some(rv as u128)
                    } else {
                        None
                    },
                    None => None,
                }),
            decreases m,
        {
            let mut i: u32 = 1;
            let mut t2i = mul_mod(t, t, p);
            proof {
                lemma2_to64();
                lemma_square_is_pow2(t as int);
                assert(t2i == pow_mod(t as int, pow2(1), pi));
            }
            while t2i != 1 && i < m
                invariant
                    pi == p as int,
                    1 <= i <= m <= 127,
                    p >= 3,
                    t < p,
                    t2i < p,
                    t2i == pow_mod(t as int, pow2(i as nat), pi),
                    forall|j: nat| 1 <= j < i ==> #[trigger] pow_mod(t as int, pow2(j), pi)
                        != 1,
                decreases m - i,
            {
                let ghost e_prev = pow2(i as nat);
                t2i = mul_mod(t2i, t2i, p);
                proof {
                    lemma_mod_square(t as int, e_prev, pi);
                    lemma_pow2_unfold((i + 1) as nat);
                }
                i = i + 1;
                attempts = sat_add_u32(attempts, 1);
            }
            if i == m {
                proof {
                    lemma_scan_value(t as int, pi, 1, m as nat, m as nat);
                }
                self.metrics.sqrt_attempts = sat_add_u32(
                    self.metrics.sqrt_attempts,
                    attempts,
                );
                return None;
            }
            proof {
                lemma_scan_value(t as int, pi, 1, m as nat, i as nat);
            }
            let b = mod_exp(c, pow2_exec(m - i - 1), p);
            let c_new = mul_mod(b, b, p);
            let t_new = mul_mod(t, c_new, p);
            let r_new = mul_mod(r, b, p);
            proof {
                assert(ts_loop(m as nat, c as int, t as int, r as int, pi) == ts_loop(
                    i as nat,
                    c_new as int,
                    t_new as int,
                    r_new as int,
                    pi,
                ));
            }
            m = i;
            c = c_new;
            t = t_new;
            r = r_new;
        }
        let rr = mul_mod(r, r, p);
        self.metrics.sqrt_attempts = sat_add_u32(self.metrics.sqrt_attempts, attempts);
        if rr == a {
            Some(r)
        } else {
            None
        }
    }
}

} // verus!
