use argon2::password_hash::{PasswordHash, PasswordHasher, PasswordVerifier, SaltString};
use argon2::{Argon2, Block};
use chacha20poly1305::aead::{Aead, AeadCore, KeyInit, OsRng};
use chacha20poly1305::{Key, XChaCha20Poly1305, XNonce};
use vstd::prelude::*;
use vstd::utf8::*;
use zeroize::Zeroize;

verus! {

#[verifier::external_type_specification]
#[verifier::external_body]
pub struct ExBlock(Block);

/// Length of a derived key.
pub const KEY_LEN: usize = 32;

/// Blocks of working memory that Argon2's default parameters use.
pub const SCRATCH_BLOCKS: usize = 19456;

/// Largest password or salt, in bytes, that Argon2 accepts.
pub const KDF_INPUT_MAX: u64 = 0xFFFF_FFFF;

/// Shortest salt, in bytes, that Argon2 accepts.
pub const KDF_SALT_MIN: u64 = 8;

/// Argon2 takes a password and a salt of these lengths.
pub open spec fn kdf_accepts(password: Seq<char>, salt: Seq<char>) -> bool {
    &&& encode_utf8(password).len() <= KDF_INPUT_MAX
    &&& KDF_SALT_MIN <= encode_utf8(salt).len() <= KDF_INPUT_MAX
}

/// XChaCha20 encrypts at most `u32::MAX` blocks of 64 bytes per nonce.
pub open spec fn sealable(plaintext: Seq<u8>) -> bool {
    plaintext.len() < 64 * 0xFFFF_FFFFnat
}

/// Length of the Poly1305 tag appended to each ciphertext.
pub const TAG_LEN: usize = 16;

/// The Argon2id key (default parameters) for a password and a salt.
pub uninterp spec fn derived_key(password: Seq<char>, salt: Seq<char>) -> Seq<u8>;

/// Whether a PHC hash string accepts a key.
pub uninterp spec fn verifies(key: Seq<u8>, phc: Seq<char>) -> bool;

/// XChaCha20-Poly1305 decryption: the plaintext, or `None` where the tag
/// does not authenticate the ciphertext under that key and nonce.
pub uninterp spec fn opened(key: Seq<u8>, nonce: Seq<u8>, ciphertext: Seq<u8>) -> Option<Seq<u8>>;

/// Argon2's working memory, allocated once and reused by each derivation.
pub struct KeyScratch {
    blocks: Vec<Block>,
}

impl KeyScratch {
    /// Enough memory for one derivation.
    pub closed spec fn ready(&self) -> bool {
        self.blocks@.len() >= SCRATCH_BLOCKS
    }

    pub fn new() -> (r: Self)
        ensures
            r.ready(),
    {
        KeyScratch { blocks: default_blocks() }
    }
}

/// Relies on argon2's `Params::block_count`: one zeroed block for each block
/// that the default parameters use.
#[verifier::external_body]
fn default_blocks() -> (r: Vec<Block>)
    ensures
        r@.len() == SCRATCH_BLOCKS,
{
    vec![Block::default(); Argon2::default().params().block_count()]
}

/// Relies on argon2's `Zeroize` for `Block`: every block of the scratch
/// memory is overwritten with zeros; the blocks stay allocated for reuse.
#[verifier::external_body]
pub(crate) fn wipe_scratch(scratch: &mut KeyScratch)
    ensures
        final(scratch).ready() == old(scratch).ready(),
{
    for block in scratch.blocks.iter_mut() {
        block.zeroize();
    }
}

/// Relies on argon2's `Argon2::hash_password_into_with_memory` with the
/// default parameters: on success the output is the key for password and salt.
/// It fails only on a password over `u32::MAX` bytes, a salt outside 8 to
/// `u32::MAX` bytes (`verify_inputs`), or too few memory blocks.
#[verifier::external_body]
pub(crate) fn derive_key(scratch: &mut KeyScratch, password: &str, salt: &str) -> (r: Option<Vec<u8>>)
    ensures
        r is Some <==> (old(scratch).ready() && kdf_accepts(password@, salt@)),
        r matches Some(k) ==> k@ == derived_key(password@, salt@) && k@.len() == KEY_LEN,
        final(scratch).ready() == old(scratch).ready(),
{
    let mut out = [0u8; KEY_LEN];
    match Argon2::default().hash_password_into_with_memory(
        password.as_bytes(),
        salt.as_bytes(),
        &mut out,
        &mut scratch.blocks,
    ) {
        Ok(()) => Some(out.to_vec()),
        Err(_) => None,
    }
}

/// Relies on argon2's `PasswordHasher::hash_password` under a fresh random
/// salt: the PHC string it yields accepts the key that was hashed. A
/// generated 16-byte salt and a 32-byte key meet every input check, so it
/// always succeeds.
#[verifier::external_body]
pub(crate) fn verification_hash(key: &[u8]) -> (r: Option<String>)
    requires
        key@.len() == KEY_LEN,
    ensures
        r is Some,
        r matches Some(h) ==> verifies(key@, h@),
{
    let salt = SaltString::generate(&mut OsRng);
    match Argon2::default().hash_password(key, &salt) {
        Ok(h) => Some(h.to_string()),
        Err(_) => None,
    }
}

/// Relies on password_hash's `PasswordHash::new` and argon2's
/// `PasswordVerifier::verify_password`, a constant-time comparison.
#[verifier::external_body]
pub(crate) fn check_key(key: &[u8], phc: &str) -> (r: bool)
    ensures
        r == verifies(key@, phc@),
{
    match PasswordHash::new(phc) {
        Ok(h) => Argon2::default().verify_password(key, &h).is_ok(),
        Err(_) => false,
    }
}

/// Relies on password_hash's `SaltString::generate` over the OS generator:
/// 16 random bytes in unpadded B64, 22 ASCII characters.
#[verifier::external_body]
pub(crate) fn fresh_salt() -> (r: String)
    ensures
        r@.len() == 22,
        is_ascii_chars(r@),
{
    SaltString::generate(&mut OsRng).as_str().to_string()
}

/// Relies on `AeadCore::generate_nonce` over the OS generator: a random
/// 24-byte nonce.
#[verifier::external_body]
pub(crate) fn fresh_nonce() -> (r: Vec<u8>)
    ensures
        r@.len() == 24,
{
    XChaCha20Poly1305::generate_nonce(&mut OsRng).to_vec()
}

/// Relies on chacha20poly1305's `Aead::encrypt`: what it yields decrypts to
/// the plaintext under the same key and nonce, and is the plaintext's length
/// plus the tag. It fails only past the block counter's limit.
#[verifier::external_body]
pub(crate) fn seal(key: &[u8], nonce: &[u8], plaintext: &[u8]) -> (r: Option<Vec<u8>>)
    requires
        key@.len() == KEY_LEN,
        nonce@.len() == 24,
    ensures
        r is Some <==> sealable(plaintext@),
        r matches Some(c) ==> opened(key@, nonce@, c@) == Some(plaintext@),
        r matches Some(c) ==> c@.len() == plaintext@.len() + TAG_LEN,
{
    let cipher = XChaCha20Poly1305::new(Key::from_slice(key));
    match cipher.encrypt(XNonce::from_slice(nonce), plaintext) {
        Ok(c) => Some(c),
        Err(_) => None,
    }
}

/// Relies on chacha20poly1305's `Aead::decrypt`, which fails on any tag
/// mismatch and never returns unauthenticated plaintext.
#[verifier::external_body]
pub(crate) fn unseal(key: &[u8], nonce: &[u8], ciphertext: &[u8]) -> (r: Option<Vec<u8>>)
    requires
        key@.len() == KEY_LEN,
        nonce@.len() == 24,
    ensures
        r is Some <==> opened(key@, nonce@, ciphertext@) is Some,
        r matches Some(p) ==> opened(key@, nonce@, ciphertext@) == Some(p@),
{
    let cipher = XChaCha20Poly1305::new(Key::from_slice(key));
    match cipher.decrypt(XNonce::from_slice(nonce), ciphertext) {
        Ok(p) => Some(p),
        Err(_) => None,
    }
}

/// Relies on zeroize's `Zeroize` for `String`: the bytes are overwritten
/// with zeros and the string is left empty.
#[verifier::external_body]
pub(crate) fn wipe_text(s: &mut String)
    ensures
        final(s)@ == Seq::<char>::empty(),
{
    s.zeroize();
}

/// Relies on zeroize's `Zeroize` for `Vec<u8>`: the bytes and the spare
/// capacity are overwritten with zeros and the vector is left empty.
#[verifier::external_body]
pub(crate) fn wipe_bytes(b: &mut Vec<u8>)
    ensures
        final(b)@ == Seq::<u8>::empty(),
{
    b.zeroize();
}

} // verus!
