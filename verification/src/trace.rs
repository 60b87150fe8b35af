//! Records the engine keeps about its own work.
//!
//! The trace is append-only: every attempt of the transform step leaves
//! one record, whether or not the attempt succeeded, and nothing ever
//! removes one.  Wall-clock timing of operations is deliberately not
//! recorded here: performance measurement is an external collaborator of
//! the core and lives outside the verified crate.

use vstd::prelude::*;

verus! {

/// One attempt inside a transform step.
#[derive(Debug, PartialEq)]
pub struct TraceStep {
    /// Attempt index within the step, 0 to 9.
    pub step: u32,
    /// The point the step started from.
    pub input: (u128, u128),
    /// The seed used by this attempt.
    pub s: u128,
    /// The hash value drawn for this attempt.
    pub h: u128,
    /// The candidate x-coordinate.
    pub x1: u128,
    /// The value whose square root was sought.
    pub y2: u128,
    /// The root, if one was found.
    pub y1: Option<u128>,
    /// The resulting point, if the attempt succeeded.
    pub output: Option<(u128, u128)>,
}

/// The operations whose outcomes the engine counts.
#[derive(Debug, Clone, Copy, PartialEq, Eq, Structural)]
pub enum OpKind {
    Transform,
    PowTRange,
    Keygen,
    Encrypt,
    Decrypt,
}

/// Monotonically growing counters over the engine's lifetime.
#[derive(Debug, Clone)]
pub struct PerfMetrics {
    /// Transform attempts performed so far (saturating at `u32::MAX`).
    pub t_transform_count: u32,
    /// Scan steps spent inside the square-root solver (saturating).
    pub sqrt_attempts: u32,
    /// Every completed operation, in order.
    pub operation_history: Vec<OpKind>,
}

/// What a diagnostic counter holds after accumulating to `x`: the value
/// itself until it reaches the top of `u32`, where it sticks.
pub open spec fn saturated32(x: int) -> int {
    if x <= u32::MAX {
        x
    } else {
        u32::MAX as int
    }
}

/// Addition that sticks at `u32::MAX` instead of wrapping: the counters
/// are diagnostic and must never halt an operation.
pub(crate) fn sat_add_u32(x: u32, y: u32) -> (r: u32)
    ensures
        r == if x + y <= u32::MAX {
            x + y
        } else {
            u32::MAX as int
        },
        r >= x,
        r >= y,
{
    if x > u32::MAX - y {
        u32::MAX
    } else {
        x + y
    }
}

/// How a rendered metrics graph draws its points.
#[derive(Debug, Clone, Copy, PartialEq, Eq, Structural)]
pub enum GraphStyle {
    Line,
    Scatter,
    Histogram,
}

} // verus!
