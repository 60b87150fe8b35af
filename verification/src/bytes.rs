//! Big-endian byte encodings of field elements.
//!
//! The hash oracle hashes the big-endian encodings of its operands, and
//! reduces the leading bytes of the digest back to an integer; both
//! directions are defined here against one spec-level reference.

use vstd::prelude::*;

verus! {

use vstd::arithmetic::power::lemma_pow0;
use vstd::arithmetic::power::lemma_pow1;
use vstd::arithmetic::power::lemma_pow_adds;
use vstd::arithmetic::power::lemma_pow_increases;
use vstd::arithmetic::power::lemma_pow_multiplies;
use vstd::arithmetic::power::pow;
use vstd::arithmetic::power2::lemma2_to64;
use vstd::arithmetic::power2::lemma_pow2;
use vstd::arithmetic::power2::lemma_pow2_adds;
use vstd::arithmetic::power2::pow2;

/// The `n` big-endian base-256 digits of `x`, most significant first.
pub open spec fn be_bytes(x: nat, n: nat) -> Seq<u8>
    decreases n,
{
    if n == 0 {
        Seq::empty()
    } else {
        be_bytes(x / 256, (n - 1) as nat).push((x % 256) as u8)
    }
}

/// The integer whose big-endian base-256 digits are `s`.
pub open spec fn be_val(s: Seq<u8>) -> nat
    decreases s.len(),
{
    if s.len() == 0 {
        0
    } else {
        (be_val(s.drop_last()) * 256 + s.last()) as nat
    }
}

/// A digit sequence of length `n` denotes a value below `256^n`.
pub proof fn lemma_be_val_bound(s: Seq<u8>)
    ensures
        be_val(s) < pow(256, s.len()),
    decreases s.len(),
{
    if s.len() == 0 {
        lemma_pow0(256);
    } else {
        lemma_be_val_bound(s.drop_last());
        lemma_pow_adds(256, (s.len() - 1) as nat, 1);
        lemma_pow1(256);
        assert(be_val(s.drop_last()) * 256 + 255 < pow(256, (s.len() - 1) as nat) * 256)
            by (nonlinear_arith)
            requires
                be_val(s.drop_last()) < pow(256, (s.len() - 1) as nat),
        ;
    }
}

/// `256^16` is exactly one more than `u128::MAX`.
pub proof fn lemma_pow256_16()
    ensures
        pow(256, 16) == 0x100000000000000000000000000000000,
{
    lemma2_to64();
    lemma_pow2_adds(64, 64);
    lemma_pow2(8);
    lemma_pow2(64);
    lemma_pow2(128);
    lemma_pow_multiplies(2, 8, 16);
}

/// The 16-byte big-endian encoding of a `u128`.
pub fn u128_to_be_bytes(x: u128) -> (r: Vec<u8>)
    ensures
        r@ == be_bytes(x as nat, 16),
        r@.len() == 16,
{
    be_bytes_prefix(x, 16)
}

/// The `n` low-order big-endian base-256 digits of `x`.
fn be_bytes_prefix(x: u128, n: usize) -> (r: Vec<u8>)
    requires
        n <= 16,
    ensures
        r@ == be_bytes(x as nat, n as nat),
        r@.len() == n,
    decreases n,
{
    if n == 0 {
        Vec::new()
    } else {
        let mut r = be_bytes_prefix(x / 256, n - 1);
        r.push((x % 256) as u8);
        r
    }
}

/// The value of the first 16 bytes of `s`, read big-endian.
pub open spec fn be_val16(s: Seq<u8>) -> nat {
    be_val(s.take(16))
}

/// Folds the first 16 bytes of `bytes` into a `u128`, big-endian.
pub fn be_val16_of(bytes: &Vec<u8>) -> (r: u128)
    requires
        bytes@.len() >= 16,
    ensures
        r == be_val16(bytes@),
{
    let mut r: u128 = 0;
    let mut i: usize = 0;
    proof {
        assert(bytes@.take(0) =~= Seq::<u8>::empty());
    }
    while i < 16
        invariant
            i <= 16,
            bytes@.len() >= 16,
            r == be_val(bytes@.take(i as int)),
        decreases 16 - i,
    {
        proof {
            lemma_be_val_bound(bytes@.take(i as int));
            lemma_pow256_16();
            lemma_pow_increases(256, i as nat, 15);
            assert(pow(256, 15) * 256 == pow(256, 16)) by {
                lemma_pow_adds(256, 15, 1);
                lemma_pow1(256);
            }
            assert(r * 256 + 255 < pow(256, 16)) by (nonlinear_arith)
                requires
                    r < pow(256, 15),
                    pow(256, 15) * 256 == pow(256, 16),
            ;
            assert(bytes@.take(i + 1).drop_last() =~= bytes@.take(i as int));
            assert(bytes@.take(i + 1).last() == bytes@[i as int]);
        }
        r = r * 256 + bytes[i] as u128;
        i = i + 1;
    }
    r
}

} // verus!
