//! Bindings to the audited cryptographic primitives this subsystem is built
//! on: AES-256 block decryption, SHA-256, SHA-512/256, the bcrypt password
//! hash, and Ed25519ph signing. Each result is a pure function of the
//! arguments, named by an uninterpreted spec function; the verified logic is
//! stated and proved over those names.

use vstd::prelude::*;

use aes::cipher::{Array, BlockCipherDecrypt, KeyInit};
use sha2::Digest;

verus! {

/// One AES-256 block decryption of `block` under `key`.
pub uninterp spec fn aes256_decrypt_block_of(key: Seq<u8>, block: Seq<u8>) -> Seq<u8>;

/// The SHA-256 digest of `data`.
pub uninterp spec fn sha256_of(data: Seq<u8>) -> Seq<u8>;

/// The SHA-512/256 digest of `data`.
pub uninterp spec fn sha512_256_of(data: Seq<u8>) -> Seq<u8>;

/// The raw 24-byte bcrypt hash of `password` under `salt` at `cost`.
pub uninterp spec fn bcrypt_of(cost: u32, salt: Seq<u8>, password: Seq<u8>) -> Seq<u8>;

/// The Ed25519 public key derived from a 32-byte secret seed.
pub uninterp spec fn ed25519_public_of(secret: Seq<u8>) -> Seq<u8>;

/// The Ed25519ph signature over `message` under the key seeded by `secret`.
pub uninterp spec fn ed25519ph_signature_of(secret: Seq<u8>, message: Seq<u8>) -> Seq<u8>;

/// Relies on aes::Aes256 (cipher::KeyInit::new_from_slice and
/// cipher::BlockCipherDecrypt::decrypt_block): one AES-256 block decryption,
/// 16 bytes, a pure function of key and block.
#[verifier::external_body]
pub(crate) fn aes256_decrypt_block(key: &[u8], block: &[u8]) -> (r: Vec<u8>)
    requires
        key@.len() == 32,
        block@.len() == 16,
    ensures
        r@ == aes256_decrypt_block_of(key@, block@),
        r@.len() == 16,
{
    let cipher = aes::Aes256::new_from_slice(key).unwrap();
    let mut b: Array<u8, aes::cipher::consts::U16> = Array::try_from(block).unwrap();
    cipher.decrypt_block(&mut b);
    let mut out: Vec<u8> = Vec::with_capacity(16);
    for i in 0..16 {
        out.push(b[i]);
    }
    out
}

/// Relies on sha2::Sha256 (digest::Digest::digest): the SHA-256 digest of
/// the input, 32 bytes, a pure function of the data.
#[verifier::external_body]
pub(crate) fn sha256(data: &[u8]) -> (r: Vec<u8>)
    ensures
        r@ == sha256_of(data@),
        r@.len() == 32,
{
    sha2::Sha256::digest(data).to_vec()
}

/// Relies on sha2::Sha512_256 (digest::Digest::digest): the SHA-512/256
/// digest of the input, 32 bytes, a pure function of the data.
#[verifier::external_body]
pub(crate) fn sha512_256(data: &[u8]) -> (r: Vec<u8>)
    ensures
        r@ == sha512_256_of(data@),
        r@.len() == 32,
{
    sha2::Sha512_256::digest(data).to_vec()
}

/// Relies on bcrypt::bcrypt: the raw cost-parameterized bcrypt hash, 24
/// bytes, a pure function of cost, salt and password. The callee asserts
/// cost < 32 and a password of 1 to 72 bytes, so those are required here.
#[verifier::external_body]
pub(crate) fn bcrypt_hash(cost: u32, salt: &[u8], password: &[u8]) -> (r: Vec<u8>)
    requires
        cost < 32,
        salt@.len() == 16,
        1 <= password@.len() <= 72,
    ensures
        r@ == bcrypt_of(cost, salt@, password@),
        r@.len() == 24,
{
    let mut s = [0u8; 16];
    s.copy_from_slice(salt);
    bcrypt::bcrypt(cost, s, password).to_vec()
}

/// Relies on ed25519_dalek::SigningKey::verifying_key (after
/// SigningKey::from_bytes): the Ed25519 public key, 32 bytes, derived
/// deterministically from the 32-byte secret seed.
#[verifier::external_body]
pub(crate) fn ed25519_public_key(secret: &[u8]) -> (r: Vec<u8>)
    requires
        secret@.len() == 32,
    ensures
        r@ == ed25519_public_of(secret@),
        r@.len() == 32,
{
    let mut s = [0u8; 32];
    s.copy_from_slice(secret);
    let key = ed25519_dalek::SigningKey::from_bytes(&s);
    key.verifying_key().to_bytes().to_vec()
}

/// Relies on ed25519_dalek::SigningKey::sign_prehashed over a sha2::Sha512
/// prehash of the message, with no context string: the Ed25519ph signature,
/// 64 bytes, a pure function of secret and message. With no context the
/// callee cannot fail (its only error is an oversized context).
#[verifier::external_body]
pub(crate) fn ed25519_sign_prehashed(secret: &[u8], message: &[u8]) -> (r: Vec<u8>)
    requires
        secret@.len() == 32,
    ensures
        r@ == ed25519ph_signature_of(secret@, message@),
        r@.len() == 64,
{
    let mut s = [0u8; 32];
    s.copy_from_slice(secret);
    let key = ed25519_dalek::SigningKey::from_bytes(&s);
    let mut h = sha2::Sha512::new();
    h.update(message);
    key.sign_prehashed(h, None).unwrap().to_bytes().to_vec()
}

/// Relies on core::sync::atomic::compiler_fence: a compiler-visible memory
/// barrier issued after a zeroization pass so the wipe cannot be elided.
#[verifier::external_body]
pub(crate) fn barrier() {
    core::sync::atomic::compiler_fence(core::sync::atomic::Ordering::SeqCst);
}

} // verus!
