//! AES-128-GCM, as the `aes-gcm` crate computes it.

use aes_gcm::aead::AeadInOut;
use aes_gcm::{Aes128Gcm, KeyInit};
use vstd::prelude::*;

verus! {

/// Length of an authentication tag.
pub const TAG_LEN: usize = 16;

/// Length of a nonce.
pub const NONCE_LEN: usize = 12;

/// Longest plaintext that AES-GCM takes under one nonce.
pub const PLAIN_LIMIT: u64 = 0xF_FFFF_FFE0;

/// Longest associated data that AES-GCM takes.
pub const AAD_LIMIT: u64 = 0x1FFF_FFFF_FFFF_FFFF;

/// A cipher: AES-128-GCM under one key.
#[derive(Clone, Copy, PartialEq, Eq, Debug)]
pub struct Cipher {
    pub key: [u8; 16],
}

impl Cipher {
    /// The cipher under `key`.
    pub fn new(key: [u8; 16]) -> (c: Cipher)
        ensures
            c.key == key,
    {
        Cipher { key }
    }
}

/// What `Aes128Gcm::encrypt_inout_detached` makes of key, nonce, associated
/// data and plaintext: the ciphertext and the tag.
pub uninterp spec fn aes_gcm_encrypt(key: Seq<u8>, nonce: Seq<u8>, aad: Seq<u8>, plain: Seq<u8>) -> (Seq<u8>, Seq<u8>);

/// What `Aes128Gcm::decrypt_inout_detached` makes of key, nonce, associated
/// data, ciphertext and tag: the plaintext, or `None` where the tag does not
/// match.
pub uninterp spec fn aes_gcm_decrypt(
    key: Seq<u8>,
    nonce: Seq<u8>,
    aad: Seq<u8>,
    ciphertext: Seq<u8>,
    tag: Seq<u8>,
) -> Option<Seq<u8>>;

/// Calls `Aes128Gcm::encrypt_inout_detached` on `data` in place and returns the
/// tag. Claimed of it: ciphertext and tag are a function of key, nonce,
/// associated data and plaintext; the ciphertext is as long as the plaintext;
/// decrypting it with that tag under the same key, nonce and associated data
/// gives the plaintext back. It fails only past the two length limits.
#[verifier::external_body]
pub(crate) fn encrypt(cipher: &Cipher, nonce: &[u8; NONCE_LEN], aad: &[u8], data: &mut [u8]) -> (tag: [u8; TAG_LEN])
    requires
        old(data)@.len() <= PLAIN_LIMIT,
        aad@.len() <= AAD_LIMIT,
    ensures
        final(data)@.len() == old(data)@.len(),
        (final(data)@, tag@) == aes_gcm_encrypt(cipher.key@, nonce@, aad@, old(data)@),
        aes_gcm_decrypt(cipher.key@, nonce@, aad@, final(data)@, tag@) == Some(old(data)@),
{
    Aes128Gcm::new(&cipher.key.into())
        .encrypt_inout_detached(&(*nonce).into(), aad, data.into())
        .expect("lengths are under the AES-GCM limits")
        .into()
}

/// Calls `Aes128Gcm::decrypt_inout_detached` on `data` in place. Claimed of it:
/// whether the tag matches, and the plaintext where it does, are a function of
/// key, nonce, associated data, ciphertext and tag; the plaintext is as long as
/// the ciphertext; where the tag matches, encrypting that plaintext under the
/// same key, nonce and associated data gives the same ciphertext and tag; where
/// it does not match, `data` is left as it was.
#[verifier::external_body]
pub(crate) fn decrypt(
    cipher: &Cipher,
    nonce: &[u8; NONCE_LEN],
    aad: &[u8],
    data: &mut [u8],
    tag: &[u8; TAG_LEN],
) -> (matched: bool)
    ensures
        final(data)@.len() == old(data)@.len(),
        match aes_gcm_decrypt(cipher.key@, nonce@, aad@, old(data)@, tag@) {
            Some(plain) => matched && final(data)@ == plain,
            None => !matched && final(data)@ == old(data)@,
        },
        matched ==> aes_gcm_encrypt(cipher.key@, nonce@, aad@, final(data)@) == (old(data)@, tag@),
{
    Aes128Gcm::new(&cipher.key.into())
        .decrypt_inout_detached(&(*nonce).into(), aad, data.into(), &(*tag).into())
        .is_ok()
}

} // verus!
