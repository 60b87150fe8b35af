use lai_crypto::add_mod;
use lai_crypto::mod_exp;
use lai_crypto::mul_mod;

const PRIME_128: u128 = 340_282_366_920_938_463_463_374_607_431_768_211_297;

#[test]
fn test_power_zero_exponent() {
    // For every base and modulus of at least 2, the zero exponent gives 1.
    for m in [2u128, 3, 7, 100, 103, u64::MAX as u128, PRIME_128] {
        for b in [0u128, 1, 2, 5, 99, u128::MAX] {
            assert_eq!(mod_exp(b, 0, m), 1);
        }
    }
    // A modulus of 1 has a single residue, 0.
    assert_eq!(mod_exp(5, 0, 1), 0);
    assert_eq!(mod_exp(5, 17, 1), 0);
}

#[test]
fn test_power_matches_bruteforce() {
    for m in [2u128, 3, 5, 97, 103, 1000] {
        for b in 0..12u128 {
            let mut expected: u128 = 1 % m;
            for e in 0..16u128 {
                assert_eq!(mod_exp(b, e, m), expected);
                expected = expected * b % m;
            }
        }
    }
}

#[test]
fn test_power_large_values() {
    assert_eq!(
        mod_exp(3, (1u128 << 127) + 5, PRIME_128),
        187_897_020_987_520_702_153_886_299_815_479_130_858
    );
    assert_eq!(
        mod_exp(123_456_789, 987_654_321, 1_000_000_000_000_000_009),
        434_016_057_768_225_682
    );
}

#[test]
fn test_mul_mod_wide_operands() {
    // Operands near the full width of the modulus: the product would be
    // far beyond u128 if it were materialized.
    let a = 0x7fff_ffff_ffff_ffff_ffff_ffff_ffff_ffffu128;
    let b = 0x7fff_ffff_ffff_ffff_ffff_ffff_ffff_fffbu128;
    assert_eq!(mul_mod(a, b, PRIME_128), 0xc000_0000_0000_0000_0000_0000_0000_1661);
    assert_eq!(mul_mod(a, b, 1), 0);
    assert_eq!(mul_mod(u128::MAX, u128::MAX, u128::MAX), 0);
}

#[test]
fn test_add_mod_wraps() {
    assert_eq!(add_mod(u128::MAX, u128::MAX, PRIME_128), (((u128::MAX % PRIME_128) * 2) % PRIME_128));
    assert_eq!(add_mod(5, 10, 7), 1);
    assert_eq!(add_mod(0, 0, 3), 0);
}
