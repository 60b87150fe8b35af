//! The error taxonomy of the engine.
//!
//! Every fallible operation returns one of these typed outcomes; no
//! operation reports success after applying only part of an iterated
//! transform.  Human-readable remediation text is advisory only and is
//! produced by unverified presentation code outside this crate, from the
//! plain values carried here.

use vstd::prelude::*;

use crate::trace::OpKind;
use crate::trace::TraceStep;

verus! {

/// Which engine parameter failed validation.
#[derive(Debug, Clone, Copy, PartialEq, Eq, Structural)]
pub enum ParamName {
    /// The prime modulus `p`.
    Modulus,
    /// The curve coefficient `a`.
    CoefficientA,
    /// The base point `p0`.
    BasePoint,
}

/// Why a parameter failed validation.
#[derive(Debug, Clone, Copy, PartialEq, Eq, Structural)]
pub enum ParamReason {
    /// The modulus is below the fixed minimum of 100.
    BelowMinimum,
    /// The modulus failed the primality test.
    NotPrime,
    /// The coefficient is not strictly below the modulus.
    NotBelowModulus,
    /// The base point fails the curve-equation check.
    NotOnCurve,
}

/// What went wrong while rendering a metrics graph.
#[derive(Debug, Clone, Copy, PartialEq, Eq, Structural)]
pub enum GraphFault {
    /// There were no data points to plot.
    NoData,
    /// The data spans a degenerate (empty) range.
    DegenerateRange,
}

/// Every failure the engine and its collaborators can report.
#[derive(Debug, PartialEq)]
pub enum LaiCryptoError {
    /// A modular square root could not be produced.
    SqrtFailure { input: u128, modulus: u128, attempts: u32 },
    /// A transform step failed all of its internal retries; carries the
    /// original point and seed and the full attempt trace.
    TransformFailure { point: (u128, u128), s: u128, steps: Vec<TraceStep> },
    /// Key generation exhausted its bounded attempt count.
    KeygenFailed { attempts: u32, modulus: u128, base_point: (u128, u128) },
    /// A constructor argument was rejected; construction is never retried.
    InvalidParameter { param: ParamName, reason: ParamReason },
    /// The wall-clock budget for an operation was exceeded (raised by the
    /// timing shell around the engine, never by the verified core).
    Timeout { operation: OpKind, duration_nanos: u64, max_duration_nanos: u64 },
    /// A post-condition sanity check failed: the transform produced a
    /// point the validator rejects.  This signals an internal
    /// inconsistency and must not be retried.
    ValidationError { operation: OpKind, expected: u128, actual: u128 },
    /// A metrics graph could not be rendered.
    GraphError { fault: GraphFault },
}

} // verus!
