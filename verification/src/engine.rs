//! The engine: parameters validated once at construction, immutable
//! afterwards, together with the primitive operations defined over them.

use vstd::prelude::*;

verus! {

use crate::arith::add_mod;
use crate::arith::mod_exp;
use crate::arith::mul_mod;
use crate::arith::pow_mod;
use crate::bytes::be_bytes;
use crate::bytes::be_val16;
use crate::bytes::be_val16_of;
use crate::bytes::u128_to_be_bytes;
use crate::digest::sha512;
use crate::digest::sha512_of;
use crate::errors::LaiCryptoError;
use crate::errors::ParamName;
use crate::errors::ParamReason;
use crate::primality::has_sqrt;
use crate::primality::has_sqrt_spec;
use crate::primality::is_prime;
use crate::primality::mr_prime;
use crate::trace::OpKind;
use crate::trace::PerfMetrics;
use crate::trace::TraceStep;
use vstd::arithmetic::div_mod::lemma_add_mod_noop;
use vstd::arithmetic::div_mod::lemma_mul_mod_noop_general;

/// `x^3 + a*x` reduced modulo `p`: the right-hand side of the curve
/// equation, used only to sanity-check points.
pub open spec fn curve_rhs(x: u128, a: u128, p: u128) -> int
    recommends
        p > 0,
{
    (x * x * x + a * x) % (p as int)
}

/// The hash oracle's value: the leading 16 bytes of the SHA-512 digest
/// of the big-endian encodings of `x`, `y`, `s` and `p`, reduced modulo
/// `p`.  A pure function of its four operands, which is what lets both
/// protocol sides reconstruct the same intermediate values.
pub open spec fn h_spec(x: u128, y: u128, s: u128, p: u128) -> int
    recommends
        p > 0,
{
    (be_val16(
        sha512_of(
            be_bytes(x as nat, 16) + be_bytes(y as nat, 16) + be_bytes(s as nat, 16) + be_bytes(
                p as nat,
                16,
            ),
        ),
    ) as int) % (p as int)
}

/// The transform engine.
pub struct LaiCryptoEngine {
    /// The prime modulus.
    pub p: u128,
    /// The curve coefficient.
    pub a: u128,
    /// The base point.
    pub p0: (u128, u128),
    /// Every transform attempt ever made, in order; append-only.
    pub trace: Vec<TraceStep>,
    /// Counters over the engine's lifetime.
    pub metrics: PerfMetrics,
    /// The bound on key-generation attempts.
    pub max_attempts: u32,
}

impl LaiCryptoEngine {
    /// What construction establishes and every operation preserves:
    /// validated parameters, and a key-generation bound of at least one
    /// attempt.
    pub open spec fn wf(self) -> bool {
        &&& self.p >= 100
        &&& mr_prime(self.p)
        &&& self.a < self.p
        &&& has_sqrt_spec(curve_rhs(self.p0.0, self.a, self.p), self.p as int)
        &&& self.max_attempts >= 1
    }

    /// Validates the parameters and returns a ready engine.
    ///
    /// Construction fails, with the offending parameter and reason
    /// named, exactly when the modulus is below 100, the modulus fails
    /// the primality test, the coefficient is not below the modulus, or
    /// the base point fails the curve-equation check (Euler's criterion
    /// applied to `x^3 + a*x`).
    pub fn new(p: u128, a: u128, p0: (u128, u128)) -> (r: Result<Self, LaiCryptoError>)
        ensures
            match r {
                Ok(engine) => {
                    &&& p >= 100
                    &&& mr_prime(p)
                    &&& a < p
                    &&& has_sqrt_spec(curve_rhs(p0.0, a, p), p as int)
                    &&& engine.p == p
                    &&& engine.a == a
                    &&& engine.p0 == p0
                    &&& engine.trace@.len() == 0
                    &&& engine.metrics.t_transform_count == 0
                    &&& engine.metrics.sqrt_attempts == 0
                    &&& engine.metrics.operation_history@.len() == 0
                    &&& engine.max_attempts == 100
                    &&& engine.wf()
                },
                Err(e) => match e {
                    LaiCryptoError::InvalidParameter { param, reason } => {
                        ||| (param == ParamName::Modulus && reason == ParamReason::BelowMinimum
                            && p < 100)
                        ||| (param == ParamName::Modulus && reason == ParamReason::NotPrime && p
                            >= 100 && !mr_prime(p))
                        ||| (param == ParamName::CoefficientA && reason
                            == ParamReason::NotBelowModulus && p >= 100 && mr_prime(p) && a >= p)
                        ||| (param == ParamName::BasePoint && reason == ParamReason::NotOnCurve
                            && p >= 100 && mr_prime(p) && a < p && !has_sqrt_spec(
                            curve_rhs(p0.0, a, p),
                            p as int,
                        ))
                    },
                    _ => false,
                },
            },
            r is Err <==> (p < 100 || !mr_prime(p) || a >= p || !has_sqrt_spec(
                curve_rhs(p0.0, a, p),
                p as int,
            )),
    {
        if p < 100 {
            return Err(
                LaiCryptoError::InvalidParameter {
                    param: ParamName::Modulus,
                    reason: ParamReason::BelowMinimum,
                },
            );
        }
        if !is_prime(p) {
            return Err(
                LaiCryptoError::InvalidParameter {
                    param: ParamName::Modulus,
                    reason: ParamReason::NotPrime,
                },
            );
        }
        if a >= p {
            return Err(
                LaiCryptoError::InvalidParameter {
                    param: ParamName::CoefficientA,
                    reason: ParamReason::NotBelowModulus,
                },
            );
        }
        let x3 = mul_mod(mul_mod(p0.0, p0.0, p), p0.0, p);
        let ax = mul_mod(a, p0.0, p);
        let y_sq = add_mod(x3, ax, p);
        proof {
            lemma_mul_mod_noop_general((p0.0 * p0.0) as int, p0.0 as int, p as int);
            lemma_add_mod_noop((p0.0 * p0.0 * p0.0) as int, (a * p0.0) as int, p as int);
            assert(y_sq == curve_rhs(p0.0, a, p));
        }
        if !has_sqrt(y_sq, p) {
            return Err(
                LaiCryptoError::InvalidParameter {
                    param: ParamName::BasePoint,
                    reason: ParamReason::NotOnCurve,
                },
            );
        }
        Ok(
            LaiCryptoEngine {
                p,
                a,
                p0,
                trace: Vec::new(),
                metrics: PerfMetrics {
                    t_transform_count: 0,
                    sqrt_attempts: 0,
                    operation_history: Vec::new(),
                },
                max_attempts: 100,
            },
        )
    }

    /// Appends one entry to the operation history.
    pub(crate) fn record_operation(&mut self, op: OpKind)
        ensures
            final(self).p == old(self).p,
            final(self).a == old(self).a,
            final(self).p0 == old(self).p0,
            final(self).trace@ == old(self).trace@,
            final(self).max_attempts == old(self).max_attempts,
            final(self).metrics.t_transform_count == old(self).metrics.t_transform_count,
            final(self).metrics.sqrt_attempts == old(self).metrics.sqrt_attempts,
            final(self).metrics.operation_history@ == old(
                self,
            ).metrics.operation_history@.push(op),
    {
        self.metrics.operation_history.push(op);
    }

    /// Modular exponentiation with the engine's modulus.
    pub fn mod_pow(&self, base: u128, exp: u128) -> (r: u128)
        requires
            self.p >= 2,
        ensures
            r == pow_mod(base as int, exp as nat, self.p as int),
            r < self.p,
    {
        mod_exp(base, exp, self.p)
    }

    /// The hash oracle for the transform: a deterministic pseudorandom
    /// field element derived from the point, the seed and the modulus.
    pub fn h(&self, x: u128, y: u128, s: u128) -> (r: u128)
        requires
            self.p >= 1,
        ensures
            r == h_spec(x, y, s, self.p),
            r < self.p,
    {
        let mut data = u128_to_be_bytes(x);
        let mut yb = u128_to_be_bytes(y);
        let mut sb = u128_to_be_bytes(s);
        let mut pb = u128_to_be_bytes(self.p);
        data.append(&mut yb);
        data.append(&mut sb);
        data.append(&mut pb);
        let digest = sha512(&data);
        let v = be_val16_of(&digest);
        v % self.p
    }
}

} // verus!
