//! Account keys and digests.

use commonware_codec::{DecodeExt, Encode};
use commonware_cryptography::{ed25519, Hasher, Sha256, Signer};
use commonware_math::algebra::Random;
use rand::rand_core::UnwrapErr;
use rand::rngs::SysRng;
use vstd::prelude::*;

verus! {

/// Bytes of a private key.
pub const PRIVATE_KEY_SIZE: usize = 32;

/// Bytes of a public key.
pub const PUBLIC_KEY_SIZE: usize = 32;

/// The private key made from a seed.
pub uninterp spec fn seed_key(seed: u64) -> Seq<u8>;

/// The public key of a private key.
pub uninterp spec fn public_key(private_key: Seq<u8>) -> Seq<u8>;

/// The SHA-256 digest of a byte string.
pub uninterp spec fn sha256(bytes: Seq<u8>) -> Seq<u8>;

/// `ed25519::PrivateKey::from_seed` makes a private key of 32 bytes from a
/// seed alone; which one is not said here.
#[verifier::external_body]
pub(crate) fn private_key_from_seed(seed: u64) -> (key: Vec<u8>)
    ensures
        key@ == seed_key(seed),
        key.len() == PRIVATE_KEY_SIZE,
{
    ed25519::PrivateKey::from_seed(seed).encode().to_vec()
}

/// `ed25519::PrivateKey::random` over the operating system's generator,
/// `SysRng`, makes a fresh private key of 32 bytes. A system that cannot supply
/// random bytes ends the process.
#[verifier::external_body]
pub(crate) fn random_private_key() -> (key: Vec<u8>)
    ensures
        key.len() == PRIVATE_KEY_SIZE,
{
    ed25519::PrivateKey::random(UnwrapErr(SysRng)).encode().to_vec()
}

/// `ed25519::PrivateKey::public_key` gives the public key, of 32 bytes, of a
/// private key, which any 32 bytes are; which one is not said here.
#[verifier::external_body]
pub(crate) fn public_key_of(private_key: &[u8]) -> (key: Vec<u8>)
    requires
        private_key.len() == PRIVATE_KEY_SIZE,
    ensures
        key@ == public_key(private_key@),
        key.len() == PUBLIC_KEY_SIZE,
{
    let bytes = bytes::Bytes::copy_from_slice(private_key);
    ed25519::PrivateKey::decode(bytes).expect("32 bytes").public_key().encode().to_vec()
}

/// `Sha256::hash` digests a byte string to 32 bytes; what it computes is not
/// said here.
#[verifier::external_body]
pub(crate) fn digest(bytes: &[u8]) -> (hash: Vec<u8>)
    ensures
        hash@ == sha256(bytes@),
        hash.len() == 32,
{
    Sha256::hash(&[bytes]).encode().to_vec()
}

/// A copy of `bytes`.
pub fn copy_bytes(bytes: &Vec<u8>) -> (copied: Vec<u8>)
    ensures
        copied@ == bytes@,
{
    let mut copied: Vec<u8> = Vec::new();
    let mut i: usize = 0;
    while i < bytes.len()
        invariant
            i <= bytes.len(),
            copied@ == bytes@.take(i as int),
        decreases bytes.len() - i,
    {
        copied.push(bytes[i]);
        i = i + 1;
        assert(copied@ =~= bytes@.take(i as int));
    }
    assert(copied@ =~= bytes@);
    copied
}

/// Whether two byte strings are the same.
pub fn same_bytes(a: &Vec<u8>, b: &Vec<u8>) -> (same: bool)
    ensures
        same == (a@ == b@),
{
    if a.len() != b.len() {
        return false;
    }
    let mut i: usize = 0;
    while i < a.len()
        invariant
            i <= a.len(),
            a.len() == b.len(),
            forall|j: int| 0 <= j < i ==> a@[j] == b@[j],
        decreases a.len() - i,
    {
        if a[i] != b[i] {
            return false;
        }
        i = i + 1;
    }
    assert(a@ =~= b@);
    true
}

} // verus!
