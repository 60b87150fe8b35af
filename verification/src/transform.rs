//! The transform step and its iteration.
//!
//! One step maps a point to its successor through the hash oracle, the
//! field arithmetic and the square-root solver, retrying with the seed
//! advanced at most ten times; the iterator applies the step a requested
//! number of times, advancing the seed once per application, and
//! propagates the first failure immediately.

use vstd::prelude::*;

verus! {

use crate::arith::add_mod;
use crate::arith::mul_mod;
use crate::arith::pow_mod;
use crate::engine::h_spec;
use crate::engine::LaiCryptoEngine;
use crate::errors::LaiCryptoError;
use crate::sqrt::sqrt_spec;
use crate::trace::sat_add_u32;
use crate::trace::saturated32;
use crate::trace::OpKind;
use crate::trace::TraceStep;
use vstd::arithmetic::div_mod::lemma_add_mod_noop;
use vstd::arithmetic::div_mod::lemma_mul_mod_noop_general;
use vstd::arithmetic::div_mod::lemma_small_mod;

/// The candidate x-coordinate of one attempt:
/// `(x + a + h) * 2^(-1) mod p`, with the inverse of two taken as
/// `2^(p-2) mod p`.
pub open spec fn x1_spec(x: u128, y: u128, s: u128, p: u128, a: u128) -> int
    recommends
        p >= 3,
{
    ((x + a + h_spec(x, y, s, p)) * pow_mod(2, (p - 2) as nat, p as int)) % (p as int)
}

/// The value whose square root one attempt seeks: `x*y + h mod p`.
pub open spec fn y2_spec(x: u128, y: u128, s: u128, p: u128) -> int
    recommends
        p >= 1,
{
    (x * y + h_spec(x, y, s, p)) % (p as int)
}

/// The trace record of attempt `j` of a step that started at seed `s0`.
pub open spec fn attempt_step(x: u128, y: u128, s0: u128, j: nat, p: u128, a: u128) -> TraceStep
    recommends
        p >= 3,
        s0 + j <= u128::MAX,
{
    let seed = (s0 + j) as u128;
    let hv = h_spec(x, y, seed, p);
    let x1 = x1_spec(x, y, seed, p, a);
    let y2 = y2_spec(x, y, seed, p);
    let y1 = sqrt_spec(y2 as u128, p);
    TraceStep {
        step: j as u32,
        input: (x, y),
        s: seed,
        h: hv as u128,
        x1: x1 as u128,
        y2: y2 as u128,
        y1,
        output: match y1 {
            Some(v) => Some((x1 as u128, v)),
            None => None,
        },
    }
}

/// The first attempt index at or after `lo` whose square root exists,
/// or 10 when every remaining attempt fails.
pub open spec fn first_success_from(x: u128, y: u128, s0: u128, p: u128, a: u128, lo: nat) -> nat
    decreases 10 - lo,
{
    if lo >= 10 {
        10
    } else if attempt_step(x, y, s0, lo, p, a).y1 is Some {
        lo
    } else {
        first_success_from(x, y, s0, p, a, lo + 1)
    }
}

/// The outcome of one transform step from `(x, y)` at starting seed
/// `s0`: the output of the first successful attempt, or `None` when all
/// ten attempts fail.
pub open spec fn t_result(x: u128, y: u128, s0: u128, p: u128, a: u128) -> Option<(u128, u128)> {
    let f = first_success_from(x, y, s0, p, a, 0);
    if f < 10 {
        attempt_step(x, y, s0, f, p, a).output
    } else {
        None
    }
}

/// The outcome of applying the step `n` times from `pt`, the `i`-th
/// application using seed `s0 + i`; `None` as soon as one step fails.
pub open spec fn iterate_spec(pt: (u128, u128), s0: u128, n: nat, p: u128, a: u128) -> Option<
    (u128, u128),
>
    decreases n,
{
    if n == 0 {
        Some(pt)
    } else {
        match t_result(pt.0, pt.1, s0, p, a) {
            None => None,
            Some(pt2) => iterate_spec(pt2, (s0 + 1) as u128, (n - 1) as nat, p, a),
        }
    }
}

/// A scan that rejected every attempt below `i` and accepts `i` (when
/// `i` is in range) yields exactly `i`, and 10 when the range is out.
proof fn lemma_first_success(x: u128, y: u128, s0: u128, p: u128, a: u128, lo: nat, i: nat)
    requires
        lo <= i <= 10,
        forall|j: nat|
            lo <= j < i ==> !(#[trigger] attempt_step(x, y, s0, j, p, a).y1 is Some),
        i < 10 ==> attempt_step(x, y, s0, i, p, a).y1 is Some,
    ensures
        first_success_from(x, y, s0, p, a, lo) == if i < 10 {
            i as int
        } else {
            10
        },
    decreases i - lo,
{
    if lo < i {
        assert(!(attempt_step(x, y, s0, lo, p, a).y1 is Some));
        lemma_first_success(x, y, s0, p, a, (lo + 1) as nat, i);
    }
}

/// Iterating one more time applies one more step at the advanced seed.
pub proof fn lemma_iterate_snoc(pt: (u128, u128), s0: u128, n: nat, p: u128, a: u128)
    requires
        s0 + n + 1 <= u128::MAX,
    ensures
        iterate_spec(pt, s0, n + 1, p, a) == (match iterate_spec(pt, s0, n, p, a) {
            None => None,
            Some(q) => t_result(q.0, q.1, (s0 + n) as u128, p, a),
        }),
    decreases n,
{
    if n == 0 {
        match t_result(pt.0, pt.1, s0, p, a) {
            None => {
                assert(iterate_spec(pt, s0, 1, p, a) is None);
            },
            Some(pt2) => {
                assert(iterate_spec(pt2, (s0 + 1) as u128, 0, p, a) == Some(pt2));
            },
        }
    } else {
        match t_result(pt.0, pt.1, s0, p, a) {
            None => {},
            Some(pt2) => {
                lemma_iterate_snoc(pt2, (s0 + 1) as u128, (n - 1) as nat, p, a);
            },
        }
    }
}

/// What a failure propagated out of an iteration from `pt0` carries:
/// the error is the `TransformFailure` of the first failing step, with
/// that step's point and seed and its ten attempt records, unchanged.
pub open spec fn iterate_failure(
    e: LaiCryptoError,
    pt0: (u128, u128),
    s0: u128,
    n: nat,
    p: u128,
    a: u128,
) -> bool {
    &&& iterate_spec(pt0, s0, n, p, a) is None
    &&& (e matches LaiCryptoError::TransformFailure { point: fp, s: fs, steps } && (exists|j: nat|
        j < n && #[trigger] iterate_spec(pt0, s0, j, p, a) == Some::<(u128, u128)>(fp) && fs
            == s0 + j && t_result(fp.0, fp.1, (s0 + j) as u128, p, a) is None) && steps@
        == Seq::new(10, |jj: int| attempt_step(fp.0, fp.1, fs, jj as nat, p, a)))
}

/// Once a step of the iteration fails, every longer iteration from the
/// same start fails too.
proof fn lemma_iterate_none_from(pt0: (u128, u128), s0: u128, j: nat, n: nat, p: u128, a: u128)
    requires
        s0 + n <= u128::MAX,
        j < n,
        match iterate_spec(pt0, s0, j, p, a) {
            Some(q) => t_result(q.0, q.1, (s0 + j) as u128, p, a) is None,
            None => true,
        },
    ensures
        iterate_spec(pt0, s0, n, p, a) is None,
    decreases n - j,
{
    lemma_iterate_snoc(pt0, s0, j, p, a);
    if j + 1 < n {
        lemma_iterate_none_from(pt0, s0, (j + 1) as nat, n, p, a);
    }
}

/// The failing step of an iteration is unique, so the failure that
/// `iterate_failure` describes is pinned completely: two errors carried
/// out of the same failed iteration agree on the failing point, its
/// seed, and the attempt records.
pub proof fn lemma_iterate_failure_unique(
    e1: LaiCryptoError,
    e2: LaiCryptoError,
    pt0: (u128, u128),
    s0: u128,
    n: nat,
    p: u128,
    a: u128,
)
    requires
        s0 + n <= u128::MAX,
        iterate_failure(e1, pt0, s0, n, p, a),
        iterate_failure(e2, pt0, s0, n, p, a),
    ensures
        (e1 matches LaiCryptoError::TransformFailure { point: fp1, s: fs1, steps: st1 } && (
        e2 matches LaiCryptoError::TransformFailure { point: fp2, s: fs2, steps: st2 } && fp1
            == fp2 && fs1 == fs2 && st1@ == st2@)),
{
    match (e1, e2) {
        (
            LaiCryptoError::TransformFailure { point: fp1, s: fs1, steps: st1 },
            LaiCryptoError::TransformFailure { point: fp2, s: fs2, steps: st2 },
        ) => {
            let j1 = choose|j: nat|
                j < n && #[trigger] iterate_spec(pt0, s0, j, p, a) == Some::<(u128, u128)>(fp1)
                    && fs1 == s0 + j && t_result(fp1.0, fp1.1, (s0 + j) as u128, p, a) is None;
            let j2 = choose|j: nat|
                j < n && #[trigger] iterate_spec(pt0, s0, j, p, a) == Some::<(u128, u128)>(fp2)
                    && fs2 == s0 + j && t_result(fp2.0, fp2.1, (s0 + j) as u128, p, a) is None;
            if j1 < j2 {
                lemma_iterate_none_from(pt0, s0, j1, j2, p, a);
                assert(false);
            }
            if j2 < j1 {
                lemma_iterate_none_from(pt0, s0, j2, j1, p, a);
                assert(false);
            }
            assert(j1 == j2 && fp1 == fp2 && fs1 == fs2);
            assert(st1@ == st2@);
        },
        _ => {},
    }
}

impl LaiCryptoEngine {
    /// One transform step with detailed tracing.
    ///
    /// At most ten attempts are made, the seed advancing by one each
    /// retry; every attempt leaves one trace record whatever its
    /// outcome.  The first attempt whose square root exists yields the
    /// resulting point; if all ten fail, the step reports
    /// `TransformFailure` carrying the original point and seed and the
    /// full attempt trace.  The outcome and every record are pinned by
    /// `t_result` and `attempt_step`.
    pub fn t(&mut self, point: (u128, u128), s: u128) -> (res: Result<
        (u128, u128),
        LaiCryptoError,
    >)
        requires
            old(self).wf(),
            s + 9 <= u128::MAX,
        ensures
            final(self).p == old(self).p,
            final(self).a == old(self).a,
            final(self).p0 == old(self).p0,
            final(self).max_attempts == old(self).max_attempts,
            final(self).metrics.sqrt_attempts >= old(self).metrics.sqrt_attempts,
            ({
                let n: nat = if first_success_from(point.0, point.1, s, old(self).p, old(
                    self,
                ).a, 0) < 10 {
                    first_success_from(point.0, point.1, s, old(self).p, old(self).a, 0) + 1
                } else {
                    10
                };
                final(self).metrics.t_transform_count == saturated32(
                    old(self).metrics.t_transform_count + n,
                )
            }),
            final(self).metrics.operation_history@ == old(
                self,
            ).metrics.operation_history@.push(OpKind::Transform),
            ({
                let n: nat = if first_success_from(point.0, point.1, s, old(self).p, old(
                    self,
                ).a, 0) < 10 {
                    first_success_from(point.0, point.1, s, old(self).p, old(self).a, 0) + 1
                } else {
                    10
                };
                final(self).trace@ == old(self).trace@ + Seq::new(
                    n,
                    |j: int| attempt_step(point.0, point.1, s, j as nat, old(self).p, old(self).a),
                )
            }),
            match t_result(point.0, point.1, s, old(self).p, old(self).a) {
                Some(pt) => res == Ok::<(u128, u128), LaiCryptoError>(pt) && pt.0 < old(self).p
                    && pt.1 < old(self).p,
                None => res matches Err(LaiCryptoError::TransformFailure { point: fp, s: fs, steps })
                    && fp == point && fs == s && steps@ == Seq::new(
                    10,
                    |j: int| attempt_step(point.0, point.1, s, j as nat, old(self).p, old(self).a),
                ),
            },
    {
        let p = self.p;
        let ghost pi = p as int;
        let ghost aa = self.a;
        let (x, y) = point;
        proof {
            // A validated modulus is odd: it is at least 100 and passes
            // Miller-Rabin, which rejects every even value above 3.
            assert(p % 2 == 1);
        }
        let inv2 = self.mod_pow(2, p - 2);
        let mut steps: Vec<TraceStep> = Vec::new();
        let mut i: u32 = 0;
        while i < 10
            invariant
                self.p == old(self).p,
                self.a == old(self).a,
                self.p0 == old(self).p0,
                self.max_attempts == old(self).max_attempts,
                self.metrics.operation_history@ == old(self).metrics.operation_history@,
                self.metrics.sqrt_attempts >= old(self).metrics.sqrt_attempts,
                self.metrics.t_transform_count == saturated32(
                    old(self).metrics.t_transform_count + i,
                ),
                old(self).wf(),
                p == self.p,
                pi == p as int,
                aa == self.a,
                p % 2 == 1,
                s + 9 <= u128::MAX,
                i <= 10,
                inv2 == pow_mod(2, (p - 2) as nat, pi),
                point == (x, y),
                steps@ == Seq::new(
                    i as nat,
                    |j: int| attempt_step(x, y, s, j as nat, p, aa),
                ),
                self.trace@ == old(self).trace@ + Seq::new(
                    i as nat,
                    |j: int| attempt_step(x, y, s, j as nat, p, aa),
                ),
                forall|j: nat|
                    j < i ==> !(#[trigger] attempt_step(x, y, s, j, p, aa).y1 is Some),
            decreases 10 - i,
        {
            let s_cur = s + (i as u128);
            let hh = self.h(x, y, s_cur);
            let x1 = mul_mod(add_mod(add_mod(x, self.a, p), hh, p), inv2, p);
            let y2v = add_mod(mul_mod(x, y, p), hh, p);
            proof {
                lemma_small_mod(hh as nat, p as nat);
                lemma_add_mod_noop((x + aa) as int, hh as int, pi);
                lemma_mul_mod_noop_general((x + aa + hh) as int, inv2 as int, pi);
                assert(x1 == x1_spec(x, y, s_cur, p, aa));
                lemma_add_mod_noop((x * y) as int, hh as int, pi);
                assert(y2v == y2_spec(x, y, s_cur, p));
            }
            let y1 = self.sqrt_mod(y2v);
            let record = TraceStep {
                step: i,
                input: (x, y),
                s: s_cur,
                h: hh,
                x1,
                y2: y2v,
                y1,
                output: match y1 {
                    Some(v) => Some((x1, v)),
                    None => None,
                },
            };
            proof {
                assert(record == attempt_step(x, y, s, i as nat, p, aa));
            }
            steps.push(record);
            // An identical record goes to the engine's own trace.
            let record2 = TraceStep {
                step: i,
                input: (x, y),
                s: s_cur,
                h: hh,
                x1,
                y2: y2v,
                y1,
                output: match y1 {
                    Some(v) => Some((x1, v)),
                    None => None,
                },
            };
            self.trace.push(record2);
            let cnt = self.metrics.t_transform_count;
            self.metrics.t_transform_count = sat_add_u32(cnt, 1);
            proof {
                assert(steps@ =~= Seq::new(
                    (i + 1) as nat,
                    |j: int| attempt_step(x, y, s, j as nat, p, aa),
                ));
                assert(self.trace@ =~= old(self).trace@ + Seq::new(
                    (i + 1) as nat,
                    |j: int| attempt_step(x, y, s, j as nat, p, aa),
                ));
            }
            if let Some(y_val) = y1 {
                proof {
                    lemma_first_success(x, y, s, p, aa, 0, i as nat);
                }
                self.record_operation(OpKind::Transform);
                return Ok((x1, y_val));
            }
            i = i + 1;
        }
        proof {
            lemma_first_success(x, y, s, p, aa, 0, 10);
        }
        self.record_operation(OpKind::Transform);
        Err(LaiCryptoError::TransformFailure { point, s, steps })
    }

    /// Applies the transform step exactly `exp` times, the `i`-th
    /// application using seed `start_s + i`, and propagates the first
    /// failure immediately: no partial iteration is ever returned.
    /// Zero applications return the point unchanged.
    pub fn pow_t_range(&mut self, point: (u128, u128), start_s: u128, exp: u128) -> (res: Result<
        (u128, u128),
        LaiCryptoError,
    >)
        requires
            old(self).wf(),
            exp >= 1 ==> start_s + exp + 8 <= u128::MAX,
        ensures
            final(self).p == old(self).p,
            final(self).a == old(self).a,
            final(self).p0 == old(self).p0,
            final(self).max_attempts == old(self).max_attempts,
            final(self).metrics.sqrt_attempts >= old(self).metrics.sqrt_attempts,
            final(self).metrics.t_transform_count >= old(self).metrics.t_transform_count,
            old(self).trace@.is_prefix_of(final(self).trace@),
            old(self).metrics.operation_history@.is_prefix_of(
                final(self).metrics.operation_history@,
            ),
            match iterate_spec(point, start_s, exp as nat, old(self).p, old(self).a) {
                Some(q) => res == Ok::<(u128, u128), LaiCryptoError>(q) && (exp >= 1 ==> q.0
                    < old(self).p && q.1 < old(self).p),
                None => (res matches Err(e) && iterate_failure(
                    e,
                    point,
                    start_s,
                    exp as nat,
                    old(self).p,
                    old(self).a,
                )),
            },
            exp == 0 ==> res == Ok::<(u128, u128), LaiCryptoError>(point),
            exp == 0 ==> (final(self).trace@ == old(self).trace@
                && final(self).metrics.t_transform_count == old(self).metrics.t_transform_count
                && final(self).metrics.sqrt_attempts == old(self).metrics.sqrt_attempts
                && final(self).metrics.operation_history@ == old(
                self,
            ).metrics.operation_history@.push(OpKind::PowTRange)),
    {
        let p = self.p;
        let ghost pi = p as int;
        let ghost aa = self.a;
        let mut pt = point;
        let mut s = start_s;
        let mut k: u128 = 0;
        while k < exp
            invariant
                self.p == old(self).p,
                self.a == old(self).a,
                self.p0 == old(self).p0,
                self.max_attempts == old(self).max_attempts,
                old(self).metrics.operation_history@.is_prefix_of(
                    self.metrics.operation_history@,
                ),
                self.metrics.sqrt_attempts >= old(self).metrics.sqrt_attempts,
                self.metrics.t_transform_count >= old(self).metrics.t_transform_count,
                old(self).trace@.is_prefix_of(self.trace@),
                old(self).wf(),
                p == self.p,
                pi == p as int,
                aa == self.a,
                k <= exp,
                s == start_s + k,
                exp >= 1 ==> start_s + exp + 8 <= u128::MAX,
                iterate_spec(point, start_s, exp as nat, p, aa) == iterate_spec(
                    pt,
                    s,
                    (exp - k) as nat,
                    p,
                    aa,
                ),
                iterate_spec(point, start_s, k as nat, p, aa) == Some(pt),
                k >= 1 ==> pt.0 < p && pt.1 < p,
                k == 0 ==> (self.trace@ == old(self).trace@
                    && self.metrics.t_transform_count == old(self).metrics.t_transform_count
                    && self.metrics.sqrt_attempts == old(self).metrics.sqrt_attempts
                    && self.metrics.operation_history@ == old(self).metrics.operation_history@),
            decreases exp - k,
        {
            let step_res = self.t(pt, s);
            match step_res {
                Ok(pt2) => {
                    proof {
                        assert(iterate_spec(pt, s, (exp - k) as nat, p, aa) == iterate_spec(
                            pt2,
                            (s + 1) as u128,
                            (exp - k - 1) as nat,
                            p,
                            aa,
                        ));
                        lemma_iterate_snoc(point, start_s, k as nat, p, aa);
                    }
                    pt = pt2;
                },
                Err(e) => {
                    proof {
                        assert(iterate_spec(pt, s, (exp - k) as nat, p, aa) is None);
                        match &e {
                            LaiCryptoError::TransformFailure { point: fp, s: fs, steps } => {
                                assert(iterate_spec(point, start_s, k as nat, p, aa)
                                    == Some::<(u128, u128)>(*fp) && *fs == start_s + k
                                    && t_result(fp.0, fp.1, (start_s + k) as u128, p, aa)
                                    is None);
                                assert(steps@ =~= Seq::new(
                                    10,
                                    |jj: int| attempt_step(fp.0, fp.1, *fs, jj as nat, p, aa),
                                ));
                            },
                            _ => {},
                        }
                    }
                    return Err(e);
                },
            }
            s = s + 1;
            k = k + 1;
        }
        self.record_operation(OpKind::PowTRange);
        Ok(pt)
    }
}

} // verus!
