use lai_crypto::LaiCryptoEngine;

#[test]
fn test_sqrt_mod_all_residues_fast_path() {
    // 103 = 3 (mod 4): the direct-power path.
    let p: u128 = 103;
    let mut engine = LaiCryptoEngine::new(p, 10, (5, 10)).unwrap();
    for v in 0..p {
        let is_residue = (0..p).any(|r| r * r % p == v);
        match engine.sqrt_mod(v) {
            Some(r) => {
                assert!(is_residue, "non-residue {} got a root", v);
                assert!(r < p);
                assert_eq!(r * r % p, v);
            }
            None => assert!(!is_residue, "residue {} got no root", v),
        }
    }
}

#[test]
fn test_sqrt_mod_all_residues_general_path() {
    // 109 = 1 (mod 4): the full Tonelli-Shanks refinement.
    let p: u128 = 109;
    let mut engine = LaiCryptoEngine::new(p, 10, (5, 10)).unwrap();
    for v in 0..p {
        let is_residue = (0..p).any(|r| r * r % p == v);
        match engine.sqrt_mod(v) {
            Some(r) => {
                assert!(is_residue, "non-residue {} got a root", v);
                assert!(r < p);
                assert_eq!(r * r % p, v);
            }
            None => assert!(!is_residue, "residue {} got no root", v),
        }
    }
}

#[test]
fn test_sqrt_mod_zero() {
    let mut engine = LaiCryptoEngine::new(103, 10, (5, 10)).unwrap();
    assert_eq!(engine.sqrt_mod(0), Some(0));
    assert_eq!(engine.sqrt_mod(103), Some(0));
    assert_eq!(engine.sqrt_mod(206), Some(0));
}

#[test]
fn test_sqrt_mod_deterministic() {
    let mut engine = LaiCryptoEngine::new(109, 10, (5, 10)).unwrap();
    for v in 0..109u128 {
        let first = engine.sqrt_mod(v);
        let second = engine.sqrt_mod(v);
        assert_eq!(first, second);
    }
}

#[test]
fn test_sqrt_mod_counts_scan_work() {
    // The diagnostic counter never decreases.
    let mut engine = LaiCryptoEngine::new(109, 10, (5, 10)).unwrap();
    let before = engine.metrics.sqrt_attempts;
    for v in 0..109u128 {
        engine.sqrt_mod(v);
    }
    assert!(engine.metrics.sqrt_attempts >= before);
}
