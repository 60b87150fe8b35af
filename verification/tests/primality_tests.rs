use lai_crypto::has_sqrt;
use lai_crypto::is_prime;

fn trial_division(n: u128) -> bool {
    if n < 2 {
        return false;
    }
    let mut d: u128 = 2;
    while d * d <= n {
        if n % d == 0 {
            return false;
        }
        d += 1;
    }
    true
}

#[test]
fn test_is_prime_agrees_with_trial_division() {
    for n in 0..10_000u128 {
        assert_eq!(is_prime(n), trial_division(n), "disagreement at {}", n);
    }
}

#[test]
fn test_is_prime_known_values() {
    // Carmichael numbers and other classic pseudoprime traps.
    assert!(!is_prime(561));
    assert!(!is_prime(41041));
    assert!(!is_prime(2047));
    assert!(!is_prime(1_373_653));
    assert!(!is_prime(9_080_191));
    assert!(!is_prime(25_326_001));
    assert!(!is_prime(3_215_031_751));
    assert!(!is_prime(4_759_123_141));
    assert!(is_prime(999_983));
    assert!(is_prime(1_000_003));
    assert!(is_prime(2_147_483_647));
    assert!(is_prime(340_282_366_920_938_463_463_374_607_431_768_211_297));
    assert!(!is_prime(340_282_366_920_938_463_463_374_607_431_768_211_295));
}

#[test]
fn test_has_sqrt_matches_enumeration() {
    for p in [103u128, 109] {
        for v in 0..p {
            let expected = (0..p).any(|r| r * r % p == v);
            assert_eq!(has_sqrt(v, p), expected, "p={} v={}", p, v);
        }
    }
}
