use lai_crypto::LaiCryptoError;
use lai_crypto::LaiCryptoEngine;
use lai_crypto::ParamName;
use lai_crypto::ParamReason;

fn test_prime() -> u128 {
    // 128-bit prime: 2^128 - 159
    340_282_366_920_938_463_463_374_607_431_768_211_297
}

// A modulus small enough that iterating the transform a scalar's worth
// of times stays practical; the base point (5, 10) validates for it.
fn small_prime() -> u128 {
    103
}

#[test]
fn test_engine_creation() {
    let prime = test_prime();
    // 5^3 + 10*5 = 175 is a quadratic non-residue modulo this prime, so
    // the curve check rejects (5, 10) there; x = 1 gives 11, a residue.
    let engine = LaiCryptoEngine::new(prime, 10, (1, 10));
    assert!(engine.is_ok());
    let rejected = LaiCryptoEngine::new(prime, 10, (5, 10));
    assert!(matches!(
        rejected,
        Err(LaiCryptoError::InvalidParameter { param: ParamName::BasePoint, reason: ParamReason::NotOnCurve })
    ));
}

#[test]
fn test_key_gen() {
    // A private scalar drawn from [1, p-1] means up to p-1 transform
    // applications, so a small modulus is used here.  The transform does
    // not preserve the curve equation, so the post-generation sanity
    // check almost always reports ValidationError; the assertion accepts
    // exactly the outcomes the contract allows.
    let prime = small_prime();
    let mut engine = LaiCryptoEngine::new(prime, 10, (5, 10)).unwrap();
    let key = engine.keygen();
    match key {
        Ok((k, q)) => {
            assert!(1 <= k && k < prime);
            assert_eq!(q.1 * q.1 % prime, (q.0 * q.0 * q.0 + 10 * q.0) % prime);
        }
        Err(LaiCryptoError::ValidationError { .. }) => {}
        Err(LaiCryptoError::KeygenFailed { attempts, modulus, .. }) => {
            assert_eq!(attempts, engine.max_attempts);
            assert_eq!(modulus, prime);
        }
        Err(other) => panic!("unexpected keygen outcome: {:?}", other),
    }
}

#[test]
fn test_encryption() {
    // The public point is produced directly by the iterated transform
    // (keygen's extra curve check would reject nearly every scalar).
    let prime = small_prime();
    let mut engine = LaiCryptoEngine::new(prime, 10, (5, 10)).unwrap();
    let priv_key: u128 = 7;
    let pub_key = engine.pow_t_range((5, 10), 1, priv_key).unwrap();
    assert_eq!(pub_key, (7, 81));
    let message = 12345;
    let mut ok = false;
    for _ in 0..50 {
        match engine.encrypt(message, pub_key, priv_key) {
            Ok((c1, c2)) => {
                assert!(c1.0 < prime && c1.1 < prime);
                assert!(c2.0 < prime);
                ok = true;
                break;
            }
            Err(LaiCryptoError::TransformFailure { .. }) => {}
            Err(other) => panic!("unexpected encrypt outcome: {:?}", other),
        }
    }
    assert!(ok, "encryption failed on fifty independent scalars");
}

#[test]
fn test_rejects_small_modulus() {
    let engine = LaiCryptoEngine::new(97, 10, (5, 10));
    match engine {
        Err(LaiCryptoError::InvalidParameter { param, reason }) => {
            assert_eq!(param, ParamName::Modulus);
            assert_eq!(reason, ParamReason::BelowMinimum);
        }
        other => panic!("expected InvalidParameter, got {:?}", other.is_ok()),
    }
}

#[test]
fn test_rejects_composite_modulus() {
    for p in [102u128, 105, 1001] {
        match LaiCryptoEngine::new(p, 10, (5, 10)) {
            Err(LaiCryptoError::InvalidParameter { param, reason }) => {
                assert_eq!(param, ParamName::Modulus);
                assert_eq!(reason, ParamReason::NotPrime);
            }
            other => panic!("expected InvalidParameter for {}, got {:?}", p, other.is_ok()),
        }
    }
}

#[test]
fn test_rejects_large_coefficient() {
    match LaiCryptoEngine::new(103, 103, (5, 10)) {
        Err(LaiCryptoError::InvalidParameter { param, reason }) => {
            assert_eq!(param, ParamName::CoefficientA);
            assert_eq!(reason, ParamReason::NotBelowModulus);
        }
        other => panic!("expected InvalidParameter, got {:?}", other.is_ok()),
    }
}

#[test]
fn test_rejects_base_point_off_curve() {
    // 175 mod 101 is a quadratic non-residue, so (5, 10) fails there.
    match LaiCryptoEngine::new(101, 10, (5, 10)) {
        Err(LaiCryptoError::InvalidParameter { param, reason }) => {
            assert_eq!(param, ParamName::BasePoint);
            assert_eq!(reason, ParamReason::NotOnCurve);
        }
        other => panic!("expected InvalidParameter, got {:?}", other.is_ok()),
    }
}

#[test]
fn test_transform_step_known_value() {
    let mut engine = LaiCryptoEngine::new(small_prime(), 10, (5, 10)).unwrap();
    let result = engine.t((5, 10), 1);
    assert_eq!(result.unwrap(), (42, 4));
    // The successful first attempt leaves exactly one trace record.
    assert_eq!(engine.trace.len(), 1);
    assert_eq!(engine.trace[0].input, (5, 10));
    assert_eq!(engine.trace[0].s, 1);
    assert_eq!(engine.trace[0].h, 69);
    assert_eq!(engine.trace[0].y1, Some(4));
    assert_eq!(engine.trace[0].output, Some((42, 4)));
}

#[test]
fn test_transform_step_bounded_retries() {
    // (18, 40) at seed 1 finds no root in any of its ten attempts.
    let mut engine = LaiCryptoEngine::new(small_prime(), 10, (5, 10)).unwrap();
    match engine.t((18, 40), 1) {
        Err(LaiCryptoError::TransformFailure { point, s, steps }) => {
            assert_eq!(point, (18, 40));
            assert_eq!(s, 1);
            assert_eq!(steps.len(), 10);
            for (i, st) in steps.iter().enumerate() {
                assert_eq!(st.step, i as u32);
                assert_eq!(st.s, 1 + i as u128);
                assert_eq!(st.y1, None);
            }
        }
        other => panic!("expected TransformFailure, got {:?}", other.is_ok()),
    }
    assert_eq!(engine.trace.len(), 10);
}

#[test]
fn test_transform_step_trace_is_append_only() {
    let mut engine = LaiCryptoEngine::new(small_prime(), 10, (5, 10)).unwrap();
    let _ = engine.t((5, 10), 1);
    let first = engine.trace.len();
    assert!(first >= 1);
    let _ = engine.t((42, 4), 2);
    assert!(engine.trace.len() > first);
    assert_eq!(engine.trace[0].input, (5, 10));
}

#[test]
fn test_iterate_zero_is_identity() {
    let mut engine = LaiCryptoEngine::new(small_prime(), 10, (5, 10)).unwrap();
    assert_eq!(engine.pow_t_range((5, 10), 1, 0).unwrap(), (5, 10));
    assert_eq!(engine.pow_t_range((77, 3), 9, 0).unwrap(), (77, 3));
    assert!(engine.trace.is_empty());
}

#[test]
fn test_iterate_known_value() {
    let mut engine = LaiCryptoEngine::new(small_prime(), 10, (5, 10)).unwrap();
    assert_eq!(engine.pow_t_range((5, 10), 1, 7).unwrap(), (7, 81));
}

#[test]
fn test_decrypt_deterministic() {
    // Decryption is a pure function of (C1, C2, k): repeated calls give
    // the same message, whatever else the engine has done in between.
    let prime = small_prime();
    let mut engine = LaiCryptoEngine::new(prime, 10, (5, 10)).unwrap();
    let c1 = (7, 81);
    let c2 = (99, 14);
    let k: u128 = 5;
    let first = engine.decrypt(c1, c2, k);
    let _ = engine.t((5, 10), 3);
    let second = engine.decrypt(c1, c2, k);
    assert_eq!(first, second);
    if let Ok(m) = first {
        assert!(m < prime);
    }
}

#[test]
fn test_keygen_with_scalar_known_point() {
    // k = 7 reaches (7, 81), which fails the curve-equation sanity
    // check, so the deterministic keygen core reports ValidationError.
    let prime = small_prime();
    let mut engine = LaiCryptoEngine::new(prime, 10, (5, 10)).unwrap();
    match engine.keygen_with_scalar(7) {
        Err(LaiCryptoError::ValidationError { expected, actual, .. }) => {
            assert_eq!(expected, (7 * 7 * 7 + 10 * 7) % prime);
            assert_eq!(actual, 81 * 81 % prime);
        }
        other => panic!("expected ValidationError, got {:?}", other.is_ok()),
    }
}

#[test]
fn test_operation_history_grows() {
    let mut engine = LaiCryptoEngine::new(small_prime(), 10, (5, 10)).unwrap();
    assert!(engine.metrics.operation_history.is_empty());
    let _ = engine.t((5, 10), 1);
    let after_t = engine.metrics.operation_history.len();
    assert!(after_t >= 1);
    let _ = engine.pow_t_range((5, 10), 1, 2);
    assert!(engine.metrics.operation_history.len() > after_t);
}

#[test]
fn test_decrypt_inverts_the_mask() {
    // Aiming decryption at the same shared chain the sender used
    // recovers the message exactly: the mask arithmetic is an inverse.
    // (The full round trip through C1 would additionally need the
    // iterated transform to commute under scalar composition, which is
    // the scheme's open question.)
    let prime = small_prime();
    let mut engine = LaiCryptoEngine::new(prime, 10, (5, 10)).unwrap();
    let q = (7, 81);
    let r: u128 = 5;
    let message: u128 = 42;
    let shared = engine.pow_t_range(q, 1, r).unwrap();
    assert_eq!(shared, (51, 9));
    let (c1, c2) = engine.encrypt_with_scalar(message, q, r).unwrap();
    assert_eq!(c1, (67, 98));
    assert_eq!(c2, ((message + shared.0) % prime, shared.1));
    let recovered = engine.decrypt(q, c2, r).unwrap();
    assert_eq!(recovered, message);
}
