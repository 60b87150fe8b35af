use lai_crypto::LaiCryptoEngine;

const PRIME_128: u128 = 340_282_366_920_938_463_463_374_607_431_768_211_297;

#[test]
fn test_h_known_values() {
    // Independently computed: the leading 16 bytes of the SHA-512 digest
    // of the big-endian encodings of (x, y, s, p), reduced mod p.
    let engine = LaiCryptoEngine::new(PRIME_128, 10, (1, 10)).unwrap();
    assert_eq!(engine.h(5, 10, 1), 53_699_332_857_714_952_308_491_248_519_036_236_161);
    assert_eq!(engine.h(5, 10, 2), 280_499_787_198_017_328_715_278_465_115_472_540_925);
}

#[test]
fn test_h_deterministic() {
    let engine = LaiCryptoEngine::new(PRIME_128, 10, (1, 10)).unwrap();
    let other = LaiCryptoEngine::new(PRIME_128, 10, (1, 10)).unwrap();
    for s in 0..20u128 {
        let v = engine.h(5, 10, s);
        assert_eq!(v, engine.h(5, 10, s));
        assert_eq!(v, other.h(5, 10, s));
        assert!(v < PRIME_128);
    }
}

#[test]
fn test_h_depends_on_every_operand() {
    let engine = LaiCryptoEngine::new(PRIME_128, 10, (1, 10)).unwrap();
    let base = engine.h(5, 10, 1);
    assert_ne!(base, engine.h(6, 10, 1));
    assert_ne!(base, engine.h(5, 11, 1));
    assert_ne!(base, engine.h(5, 10, 2));
    // A different modulus feeds different bytes into the digest.
    let smaller = LaiCryptoEngine::new(103, 10, (5, 10)).unwrap();
    assert_eq!(smaller.h(5, 10, 1), 69);
    assert_eq!(smaller.h(5, 10, 2), 17);
    assert_ne!(base % 103, smaller.h(5, 10, 1));
}
