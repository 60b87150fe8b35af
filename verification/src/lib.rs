//! An experimental public-key scheme built from a hash-seeded modular
//! transform applied iteratively to points over a prime field.
//!
//! The crate provides modular arithmetic primitives, a Miller-Rabin
//! primality test, a Tonelli-Shanks modular square-root solver, a
//! SHA-512-based hash oracle, the single-step transform with its bounded
//! retry policy, the iterated transform, and the key-generation /
//! encryption / decryption protocol built on top of them.

mod arith;
mod bytes;
mod digest;
mod engine;
mod errors;
mod primality;
mod protocol;
mod rng;
mod sqrt;
mod trace;
mod transform;

pub use arith::add_mod;
pub use arith::lemma_power_of_zero;
pub use arith::mod_exp;
pub use arith::mul_mod;
pub use arith::pow_mod;
pub use bytes::be_bytes;
pub use bytes::be_val16;
pub use bytes::be_val;
pub use digest::sha512_of;
pub use engine::LaiCryptoEngine;
pub use engine::curve_rhs;
pub use engine::h_spec;
pub use errors::GraphFault;
pub use errors::LaiCryptoError;
pub use errors::ParamName;
pub use errors::ParamReason;
pub use primality::has_sqrt;
pub use primality::has_sqrt_spec;
pub use primality::is_prime;
pub use primality::base_accepted;
pub use primality::mr_bases;
pub use primality::mr_prime;
pub use primality::witness_passes;
pub use primality::odd_part;
pub use primality::two_exponent;
pub use protocol::decrypt_spec;
pub use protocol::encrypt_scalar_spec;
pub use protocol::lemma_round_trip;
pub use sqrt::first_nonresidue_from;
pub use sqrt::first_unit_index;
pub use sqrt::lemma_sqrt_of_zero;
pub use sqrt::lemma_sqrt_root_valid;
pub use sqrt::sqrt_spec;
pub use sqrt::ts_loop;
pub use trace::saturated32;
pub use trace::GraphStyle;
pub use trace::OpKind;
pub use trace::PerfMetrics;
pub use trace::TraceStep;
pub use transform::attempt_step;
pub use transform::first_success_from;
pub use transform::iterate_failure;
pub use transform::iterate_spec;
pub use transform::lemma_iterate_failure_unique;
pub use transform::lemma_iterate_snoc;
pub use transform::t_result;
pub use transform::x1_spec;
pub use transform::y2_spec;
