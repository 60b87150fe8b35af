//! The key/cipher protocol built on the iterated transform.
//!
//! Scalars are drawn from the operating system's entropy source; every
//! decision taken after a draw lives in a deterministic function of the
//! drawn scalar (`keygen_with_scalar`, `encrypt_with_scalar`), whose
//! outcome is pinned exactly.  Correctness of the round trip rests on
//! the iterated transform commuting under composition of scalars, which
//! is an open question of the scheme, not a proved property; the
//! conditional half that does hold is `lemma_round_trip` below.

use vstd::prelude::*;

verus! {

use crate::arith::add_mod;
use crate::arith::mul_mod;
use crate::engine::curve_rhs;
use crate::engine::LaiCryptoEngine;
use crate::errors::LaiCryptoError;
use crate::rng::random_u128;
use crate::trace::OpKind;
use crate::transform::iterate_failure;
use crate::transform::iterate_spec;
use vstd::arithmetic::div_mod::lemma_add_mod_noop;
use vstd::arithmetic::div_mod::lemma_add_mod_noop_right;
use vstd::arithmetic::div_mod::lemma_mod_add_multiples_vanish;
use vstd::arithmetic::div_mod::lemma_mul_mod_noop_general;
use vstd::arithmetic::div_mod::lemma_small_mod;

/// What encryption returns for the ephemeral scalar `r`: the point
/// reached from the base point, and the masked message paired with the
/// shared point's y-coordinate.
pub open spec fn encrypt_scalar_spec(
    m: u128,
    q: (u128, u128),
    r: u128,
    p: u128,
    a: u128,
    p0: (u128, u128),
) -> Option<((u128, u128), (u128, u128))> {
    match iterate_spec(p0, 1, r as nat, p, a) {
        None => None,
        Some(c1) => match iterate_spec(q, 1, r as nat, p, a) {
            None => None,
            Some(sr) => Some((c1, (((m + sr.0) % (p as int)) as u128, sr.1))),
        },
    }
}

/// What decryption returns: the masked coordinate of `c2` minus the
/// x-coordinate of the shared point reached from `c1`, modulo `p`.  A
/// pure function of the ciphertext, the scalar and the engine
/// parameters.
pub open spec fn decrypt_spec(
    c1: (u128, u128),
    c2: (u128, u128),
    k: u128,
    p: u128,
    a: u128,
) -> Option<u128> {
    match iterate_spec(c1, 1, k as nat, p, a) {
        None => None,
        Some(sh) => Some(((c2.0 + p - sh.0) % (p as int)) as u128),
    }
}

/// The round trip, conditional on the scheme's open question: whenever
/// the shared point reached by the sender (from the public key `q`) and
/// the shared point reached by the receiver (from `c1`) carry the same
/// x-coordinate, decrypting the ciphertext built from any message below
/// `p` returns that message exactly.
pub proof fn lemma_round_trip(
    m: u128,
    q: (u128, u128),
    r: u128,
    k: u128,
    p: u128,
    a: u128,
    p0: (u128, u128),
    c1: (u128, u128),
    sr: (u128, u128),
    sh: (u128, u128),
)
    requires
        p >= 2,
        m < p,
        sr.0 < p,
        sh.0 == sr.0,
        iterate_spec(p0, 1, r as nat, p, a) == Some(c1),
        iterate_spec(q, 1, r as nat, p, a) == Some(sr),
        iterate_spec(c1, 1, k as nat, p, a) == Some(sh),
    ensures
        encrypt_scalar_spec(m, q, r, p, a, p0) == Some(
            (c1, (((m + sr.0) % (p as int)) as u128, sr.1)),
        ),
        decrypt_spec(c1, (((m + sr.0) % (p as int)) as u128, sr.1), k, p, a) == Some(m),
{
    let pi = p as int;
    let c2x = (m + sr.0) % pi;
    lemma_add_mod_noop_right((p - sr.0) as int, (m + sr.0) as int, pi);
    assert(((p - sr.0) + c2x) % pi == ((p - sr.0) + (m + sr.0)) % pi);
    assert((p - sr.0) + (m + sr.0) == pi + m);
    lemma_mod_add_multiples_vanish(m as int, pi);
    lemma_small_mod(m as nat, p as nat);
    assert((c2x + p - sr.0) % pi == m);
}

impl LaiCryptoEngine {
    /// The deterministic part of key generation for a fixed private
    /// scalar `k`: iterate the transform `k` times from the base point
    /// at seed 1, then check the resulting public point against the
    /// curve equation.  A mismatch is an internal inconsistency
    /// (`ValidationError`, never retried); a transform failure is
    /// reported for the caller to retry with a fresh scalar.
    pub fn keygen_with_scalar(&mut self, k: u128) -> (res: Result<
        (u128, (u128, u128)),
        LaiCryptoError,
    >)
        requires
            old(self).wf(),
            1 <= k < old(self).p,
            old(self).p + 8 <= u128::MAX,
        ensures
            final(self).p == old(self).p,
            final(self).a == old(self).a,
            final(self).p0 == old(self).p0,
            final(self).max_attempts == old(self).max_attempts,
            final(self).metrics.sqrt_attempts >= old(self).metrics.sqrt_attempts,
            final(self).metrics.t_transform_count >= old(self).metrics.t_transform_count,
            old(self).trace@.is_prefix_of(final(self).trace@),
            old(self).metrics.operation_history@.is_prefix_of(
                final(self).metrics.operation_history@,
            ),
            match iterate_spec(old(self).p0, 1, k as nat, old(self).p, old(self).a) {
                None => (res matches Err(e) && iterate_failure(
                    e,
                    old(self).p0,
                    1,
                    k as nat,
                    old(self).p,
                    old(self).a,
                )),
                Some(qp) => if (qp.1 * qp.1) % (old(self).p as int) == curve_rhs(
                    qp.0,
                    old(self).a,
                    old(self).p,
                ) {
                    res == Ok::<(u128, (u128, u128)), LaiCryptoError>((k, qp))
                } else {
                    res == Err::<(u128, (u128, u128)), LaiCryptoError>(
                        LaiCryptoError::ValidationError {
                            operation: OpKind::Keygen,
                            expected: curve_rhs(qp.0, old(self).a, old(self).p) as u128,
                            actual: (((qp.1 * qp.1) % (old(self).p as int)) as u128),
                        },
                    )
                },
            },
    {
        let base = self.p0;
        let iter_res = self.pow_t_range(base, 1, k);
        let qp = match iter_res {
            Ok(v) => v,
            Err(e) => {
                return Err(e);
            },
        };
        let p = self.p;
        let x3 = mul_mod(mul_mod(qp.0, qp.0, p), qp.0, p);
        let ax = mul_mod(self.a, qp.0, p);
        let y_sq = add_mod(x3, ax, p);
        let y_actual = mul_mod(qp.1, qp.1, p);
        proof {
            lemma_mul_mod_noop_general((qp.0 * qp.0) as int, qp.0 as int, p as int);
            lemma_add_mod_noop((qp.0 * qp.0 * qp.0) as int, (self.a * qp.0) as int, p as int);
            assert(y_sq == curve_rhs(qp.0, self.a, p));
        }
        if y_sq != y_actual {
            return Err(
                LaiCryptoError::ValidationError {
                    operation: OpKind::Keygen,
                    expected: y_sq,
                    actual: y_actual,
                },
            );
        }
        Ok((k, qp))
    }

    /// Key generation: draw private scalars uniformly from `[1, p-1]`
    /// until the iterated transform succeeds, up to the engine's bounded
    /// attempt count.  A successful result carries a scalar in range and
    /// a public point that satisfies the curve equation; exhausting the
    /// attempts yields `KeygenFailed`, and a curve-equation mismatch is
    /// returned at once as `ValidationError`.
    pub fn keygen(&mut self) -> (res: Result<(u128, (u128, u128)), LaiCryptoError>)
        requires
            old(self).wf(),
            old(self).p + 8 <= u128::MAX,
        ensures
            final(self).p == old(self).p,
            final(self).a == old(self).a,
            final(self).p0 == old(self).p0,
            final(self).max_attempts == old(self).max_attempts,
            final(self).metrics.sqrt_attempts >= old(self).metrics.sqrt_attempts,
            final(self).metrics.t_transform_count >= old(self).metrics.t_transform_count,
            old(self).trace@.is_prefix_of(final(self).trace@),
            old(self).metrics.operation_history@.is_prefix_of(
                final(self).metrics.operation_history@,
            ),
            match res {
                Ok((k, qp)) => {
                    &&& 1 <= k < old(self).p
                    &&& iterate_spec(old(self).p0, 1, k as nat, old(self).p, old(self).a)
                        == Some(qp)
                    &&& (qp.1 * qp.1) % (old(self).p as int) == curve_rhs(
                        qp.0,
                        old(self).a,
                        old(self).p,
                    )
                },
                Err(e) => {
                    ||| (e matches LaiCryptoError::ValidationError { operation, expected, actual }
                        && operation == OpKind::Keygen && (exists|kk: u128|
                        1 <= kk < old(self).p && ((#[trigger] iterate_spec(
                            old(self).p0,
                            1,
                            kk as nat,
                            old(self).p,
                            old(self).a,
                        )) matches Some(qp) && expected == curve_rhs(
                            qp.0,
                            old(self).a,
                            old(self).p,
                        ) as u128 && actual == (((qp.1 * qp.1) % (old(self).p as int)) as u128)
                            && expected != actual)))
                    ||| (e matches LaiCryptoError::KeygenFailed { attempts, modulus, base_point }
                        && attempts == old(self).max_attempts && modulus == old(self).p
                        && base_point == old(self).p0)
                },
            },
            res matches Err(LaiCryptoError::KeygenFailed { .. }) ==> (exists|kk: u128|
                1 <= kk < old(self).p && #[trigger] iterate_spec(
                    old(self).p0,
                    1,
                    kk as nat,
                    old(self).p,
                    old(self).a,
                ) is None),
    {
        let mut attempt: u32 = 0;
        let bound = self.max_attempts;
        while attempt < bound
            invariant
                self.p == old(self).p,
                self.a == old(self).a,
                self.p0 == old(self).p0,
                self.max_attempts == old(self).max_attempts,
                self.metrics.sqrt_attempts >= old(self).metrics.sqrt_attempts,
                self.metrics.t_transform_count >= old(self).metrics.t_transform_count,
                old(self).trace@.is_prefix_of(self.trace@),
                old(self).metrics.operation_history@.is_prefix_of(
                    self.metrics.operation_history@,
                ),
                old(self).wf(),
                old(self).p + 8 <= u128::MAX,
                bound == old(self).max_attempts,
                attempt <= bound,
                attempt >= 1 ==> (exists|kk: u128|
                    1 <= kk < old(self).p && #[trigger] iterate_spec(
                        old(self).p0,
                        1,
                        kk as nat,
                        old(self).p,
                        old(self).a,
                    ) is None),
            decreases bound - attempt,
        {
            let rnd = random_u128();
            let k = rnd % (self.p - 1) + 1;
            let r = self.keygen_with_scalar(k);
            match r {
                Ok(v) => {
                    self.record_operation(OpKind::Keygen);
                    return Ok(v);
                },
                Err(e) => {
                    match e {
                        LaiCryptoError::ValidationError { .. } => {
                            proof {
                                match iterate_spec(
                                    old(self).p0,
                                    1,
                                    k as nat,
                                    old(self).p,
                                    old(self).a,
                                ) {
                                    Some(qp) => {
                                        assert(1 <= k < old(self).p && iterate_spec(
                                            old(self).p0,
                                            1,
                                            k as nat,
                                            old(self).p,
                                            old(self).a,
                                        ) == Some(qp));
                                    },
                                    None => {},
                                }
                            }
                            return Err(e);
                        },
                        _ => {
                            proof {
                                // A failed draw: the iteration for this
                                // scalar must have failed, else the call
                                // would have returned Ok or a
                                // ValidationError.
                                assert(1 <= k < old(self).p && iterate_spec(
                                    old(self).p0,
                                    1,
                                    k as nat,
                                    old(self).p,
                                    old(self).a,
                                ) is None);
                            }
                        },
                    }
                },
            }
            attempt = attempt + 1;
        }
        Err(
            LaiCryptoError::KeygenFailed {
                attempts: self.max_attempts,
                modulus: self.p,
                base_point: self.p0,
            },
        )
    }

    /// The deterministic part of encryption for a fixed ephemeral
    /// scalar `r`: `C1` is the transform iterated `r` times from the
    /// base point, the shared point is the same iteration from the
    /// public key `q`, and `C2` masks the message with the shared
    /// x-coordinate.  The outcome is pinned by `encrypt_scalar_spec`.
    pub fn encrypt_with_scalar(&mut self, m: u128, q: (u128, u128), r: u128) -> (res: Result<
        ((u128, u128), (u128, u128)),
        LaiCryptoError,
    >)
        requires
            old(self).wf(),
            1 <= r < old(self).p,
            old(self).p + 8 <= u128::MAX,
        ensures
            final(self).p == old(self).p,
            final(self).a == old(self).a,
            final(self).p0 == old(self).p0,
            final(self).max_attempts == old(self).max_attempts,
            final(self).metrics.sqrt_attempts >= old(self).metrics.sqrt_attempts,
            final(self).metrics.t_transform_count >= old(self).metrics.t_transform_count,
            old(self).trace@.is_prefix_of(final(self).trace@),
            old(self).metrics.operation_history@.is_prefix_of(
                final(self).metrics.operation_history@,
            ),
            match encrypt_scalar_spec(m, q, r, old(self).p, old(self).a, old(self).p0) {
                Some(ct) => res == Ok::<((u128, u128), (u128, u128)), LaiCryptoError>(ct),
                None => res matches Err(LaiCryptoError::TransformFailure { .. }),
            },
            (iterate_spec(old(self).p0, 1, r as nat, old(self).p, old(self).a) is None) ==> (
            res matches Err(e) && iterate_failure(
                e,
                old(self).p0,
                1,
                r as nat,
                old(self).p,
                old(self).a,
            )),
            (iterate_spec(old(self).p0, 1, r as nat, old(self).p, old(self).a) is Some
                && iterate_spec(q, 1, r as nat, old(self).p, old(self).a) is None) ==> (
            res matches Err(e) && iterate_failure(e, q, 1, r as nat, old(self).p, old(self).a)),
    {
        let base = self.p0;
        let c1 = match self.pow_t_range(base, 1, r) {
            Ok(v) => v,
            Err(e) => {
                return Err(e);
            },
        };
        let sr = match self.pow_t_range(q, 1, r) {
            Ok(v) => v,
            Err(e) => {
                return Err(e);
            },
        };
        let c2x = add_mod(m, sr.0, self.p);
        self.record_operation(OpKind::Encrypt);
        Ok((c1, (c2x, sr.1)))
    }

    /// Encryption: draw an ephemeral scalar uniformly from `[1, p-1]`
    /// and encrypt with it.  The scalar is never returned: the receiver
    /// must not need it.  The result is `encrypt_scalar_spec` for some
    /// in-range scalar.
    #[allow(unused_variables)]
    pub fn encrypt(&mut self, m: u128, q: (u128, u128), k: u128) -> (res: Result<
        ((u128, u128), (u128, u128)),
        LaiCryptoError,
    >)
        requires
            old(self).wf(),
            old(self).p + 8 <= u128::MAX,
        ensures
            final(self).p == old(self).p,
            final(self).a == old(self).a,
            final(self).p0 == old(self).p0,
            final(self).max_attempts == old(self).max_attempts,
            old(self).trace@.is_prefix_of(final(self).trace@),
            old(self).metrics.operation_history@.is_prefix_of(
                final(self).metrics.operation_history@,
            ),
            match res {
                Ok(ct) => exists|r: u128|
                    1 <= r < old(self).p && #[trigger] encrypt_scalar_spec(
                        m,
                        q,
                        r,
                        old(self).p,
                        old(self).a,
                        old(self).p0,
                    ) == Some(ct),
                Err(e) => exists|rr: u128|
                    1 <= rr < old(self).p && #[trigger] encrypt_scalar_spec(
                        m,
                        q,
                        rr,
                        old(self).p,
                        old(self).a,
                        old(self).p0,
                    ) is None && (iterate_failure(
                        e,
                        old(self).p0,
                        1,
                        rr as nat,
                        old(self).p,
                        old(self).a,
                    ) || iterate_failure(e, q, 1, rr as nat, old(self).p, old(self).a)),
            },
    {
        let rnd = random_u128();
        let r = rnd % (self.p - 1) + 1;
        let out = self.encrypt_with_scalar(m, q, r);
        proof {
            match &out {
                Ok(ct) => {
                    assert(1 <= r < old(self).p && encrypt_scalar_spec(
                        m,
                        q,
                        r,
                        old(self).p,
                        old(self).a,
                        old(self).p0,
                    ) == Some(*ct));
                },
                Err(e) => {
                    assert(encrypt_scalar_spec(
                        m,
                        q,
                        r,
                        old(self).p,
                        old(self).a,
                        old(self).p0,
                    ) is None);
                    if iterate_spec(old(self).p0, 1, r as nat, old(self).p, old(self).a)
                        is None {
                        assert(iterate_failure(
                            *e,
                            old(self).p0,
                            1,
                            r as nat,
                            old(self).p,
                            old(self).a,
                        ));
                    } else {
                        assert(iterate_failure(*e, q, 1, r as nat, old(self).p, old(self).a));
                    }
                },
            }
        }
        out
    }

    /// Decryption: iterate the transform `k` times from `C1` and strip
    /// the shared x-coordinate from the masked coordinate of `C2`.  A
    /// pure function of `(C1, C2, k)` for fixed engine parameters,
    /// pinned by `decrypt_spec`.
    pub fn decrypt(&mut self, c1: (u128, u128), c2: (u128, u128), k: u128) -> (res: Result<
        u128,
        LaiCryptoError,
    >)
        requires
            old(self).wf(),
            1 <= k < old(self).p,
            old(self).p + 8 <= u128::MAX,
        ensures
            final(self).p == old(self).p,
            final(self).a == old(self).a,
            final(self).p0 == old(self).p0,
            final(self).max_attempts == old(self).max_attempts,
            final(self).metrics.sqrt_attempts >= old(self).metrics.sqrt_attempts,
            final(self).metrics.t_transform_count >= old(self).metrics.t_transform_count,
            old(self).trace@.is_prefix_of(final(self).trace@),
            old(self).metrics.operation_history@.is_prefix_of(
                final(self).metrics.operation_history@,
            ),
            match decrypt_spec(c1, c2, k, old(self).p, old(self).a) {
                Some(mv) => res == Ok::<u128, LaiCryptoError>(mv) && mv < old(self).p,
                None => (res matches Err(e) && iterate_failure(
                    e,
                    c1,
                    1,
                    k as nat,
                    old(self).p,
                    old(self).a,
                )),
            },
    {
        let sh = match self.pow_t_range(c1, 1, k) {
            Ok(v) => v,
            Err(e) => {
                return Err(e);
            },
        };
        let p = self.p;
        let m = add_mod(c2.0, p - sh.0, p);
        self.record_operation(OpKind::Decrypt);
        Ok(m)
    }
}

} // verus!
