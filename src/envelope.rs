use vstd::prelude::*;

use crate::crypto::{fresh_nonce, opened, seal, sealable, unseal, KEY_LEN, TAG_LEN};
use crate::error::VaultError;

verus! {

/// A ciphertext together with the nonce it was made under.
pub struct SealedSecret {
    pub nonce: Vec<u8>,
    pub ciphertext: Vec<u8>,
}

/// `ciphertext` authenticates under `key` and `nonce` and holds `plaintext`.
pub open spec fn seals(key: Seq<u8>, nonce: Seq<u8>, ciphertext: Seq<u8>, plaintext: Seq<u8>) -> bool {
    nonce.len() == 24 && opened(key, nonce, ciphertext) == Some(plaintext)
}

/// What decryption yields: the authenticated plaintext, or a failure.
pub open spec fn decryption(key: Seq<u8>, nonce: Seq<u8>, ciphertext: Seq<u8>) -> Result<
    Seq<u8>,
    VaultError,
> {
    if nonce.len() != 24 {
        Err(VaultError::DataIntegrityFailure)
    } else {
        match opened(key, nonce, ciphertext) {
            Some(p) => Ok(p),
            None => Err(VaultError::DataIntegrityFailure),
        }
    }
}

/// Encrypts under a nonce drawn fresh for this call; no caller can supply one.
pub fn encrypt(plaintext: &[u8], key: &[u8]) -> (r: Result<SealedSecret, VaultError>)
    requires
        key@.len() == KEY_LEN,
    ensures
        r is Ok <==> sealable(plaintext@),
        r matches Ok(s) ==> seals(key@, s.nonce@, s.ciphertext@, plaintext@),
        r matches Ok(s) ==> s.ciphertext@.len() == plaintext@.len() + TAG_LEN,
        r is Err ==> r == Err::<SealedSecret, VaultError>(VaultError::EncryptionFailure),
{
    let nonce = fresh_nonce();
    match seal(key, nonce.as_slice(), plaintext) {
        Some(ciphertext) => Ok(SealedSecret { nonce, ciphertext }),
        None => Err(VaultError::EncryptionFailure),
    }
}

/// Decrypts and authenticates; fails closed on a wrong key or any tampering.
pub fn decrypt(nonce: &[u8], ciphertext: &[u8], key: &[u8]) -> (r: Result<Vec<u8>, VaultError>)
    requires
        key@.len() == KEY_LEN,
    ensures
        match r {
            Ok(p) => decryption(key@, nonce@, ciphertext@) == Ok::<Seq<u8>, VaultError>(p@),
            Err(e) => decryption(key@, nonce@, ciphertext@) == Err::<Seq<u8>, VaultError>(e),
        },
{
    if nonce.len() != 24 {
        return Err(VaultError::DataIntegrityFailure);
    }
    match unseal(key, nonce, ciphertext) {
        Some(p) => Ok(p),
        None => Err(VaultError::DataIntegrityFailure),
    }
}

/// Decrypting what was encrypted, under the same key, gives back the plaintext.
pub proof fn lemma_decrypt_after_encrypt(
    key: Seq<u8>,
    nonce: Seq<u8>,
    ciphertext: Seq<u8>,
    plaintext: Seq<u8>,
)
    requires
        seals(key, nonce, ciphertext, plaintext),
    ensures
        decryption(key, nonce, ciphertext) == Ok::<Seq<u8>, VaultError>(plaintext),
{
}

} // verus!
