use vstd::prelude::*;
use vstd::string::StringExecFns;
use vstd::utf8::*;

use crate::channel::Notifications;
use crate::codec::{
    decode_keyfile, encode_keyfile, is_keyfile, is_keyfile_encoding, lemma_keyfile_encoding_unique,
    text_from_utf8, KeyfileRecord, KeyfileView,
};
use crate::crypto::{
    check_key, derive_key, derived_key, fresh_salt, kdf_accepts, sealable, verification_hash,
    verifies, wipe_bytes, wipe_scratch, wipe_text, KeyScratch, KDF_INPUT_MAX, TAG_LEN,
};
use crate::envelope::{decrypt, decryption, encrypt, seals};
use crate::error::{message_of, VaultError};

verus! {

/// Shortest master password accepted, in bytes.
pub const MIN_PASSWORD_LEN: usize = 16;

/// SQLite journaling modes.
#[derive(PartialEq, Eq, Structural, Clone, Copy, Debug)]
pub enum JournalMode {
    Delete,
    Truncate,
    Persist,
    Memory,
    Wal,
    Off,
}

/// How the encrypted database is to be opened.
pub struct ConnectionConfig {
    pub key: String,
    pub foreign_keys: bool,
    pub journal_mode: JournalMode,
    pub create_if_missing: bool,
    pub cipher_memory_security: bool,
}

/// The settings every vault connection uses besides its key.
pub open spec fn vault_settings(c: ConnectionConfig) -> bool {
    &&& c.foreign_keys
    &&& c.journal_mode == JournalMode::Off
    &&& c.create_if_missing
    &&& c.cipher_memory_security
}

impl ConnectionConfig {
    /// The vault's settings, keyed by the recovery passphrase.
    pub fn for_key(key: String) -> (r: Self)
        ensures
            r.key@ == key@,
            vault_settings(r),
    {
        ConnectionConfig {
            key,
            foreign_keys: true,
            journal_mode: JournalMode::Off,
            create_if_missing: true,
            cipher_memory_security: true,
        }
    }

    /// The key as the value of SQLCipher's `key` pragma: quoted.
    pub fn key_pragma(&self) -> (r: String)
        ensures
            r@ == seq!['\''] + self.key@ + seq!['\''],
    {
        let mut s = String::from_str("'");
        s.append(self.key.as_str());
        s.append("'");
        proof {
            reveal_strlit("'");
        }
        assert(s@ =~= seq!['\''] + self.key@ + seq!['\'']);
        s
    }
}

/// What a successful creation hands back: the keyfile to persist and the
/// configuration that opens the new database.
pub struct NewVault {
    pub keyfile: Vec<u8>,
    pub connection: ConnectionConfig,
}

/// The record that keyfile bytes hold.
pub open spec fn stored_record(kf: Seq<u8>) -> KeyfileView {
    choose|m: KeyfileView| is_keyfile_encoding(kf, m)
}

/// The record holds `passphrase`, sealed under the key of `password` with a
/// salt that Argon2 takes, and a verification hash that accepts that key.
pub open spec fn seals_passphrase(password: Seq<char>, passphrase: Seq<char>, m: KeyfileView) -> bool {
    let k = derived_key(password, m.derivation_salt);
    &&& kdf_accepts(password, m.derivation_salt)
    &&& m.encrypted_passphrase.len() == encode_utf8(passphrase).len() + TAG_LEN
    &&& verifies(k, m.hashed_password)
    &&& seals(k, m.nonce, m.encrypted_passphrase, encode_utf8(passphrase))
}

/// The keyfile bytes encode a record that holds `passphrase` for `password`.
pub open spec fn holds_passphrase(password: Seq<char>, passphrase: Seq<char>, kf: Seq<u8>) -> bool {
    exists|m: KeyfileView|
        #![trigger is_keyfile_encoding(kf, m)]
        is_keyfile_encoding(kf, m) && seals_passphrase(password, passphrase, m)
}

/// Why creating a vault with these secrets fails, if it does.
pub open spec fn creation_failure(password: Seq<char>, passphrase: Seq<char>) -> Option<VaultError> {
    if encode_utf8(password).len() < MIN_PASSWORD_LEN {
        Some(VaultError::PasswordTooShort)
    } else if encode_utf8(password).len() > KDF_INPUT_MAX {
        Some(VaultError::KdfFailure)
    } else if !sealable(encode_utf8(passphrase)) {
        Some(VaultError::EncryptionFailure)
    } else {
        None
    }
}

/// What a login with `password` against keyfile bytes yields: the recovery
/// passphrase, or the first failure.
pub open spec fn unlock_result(password: Seq<char>, kf: Seq<u8>) -> Result<Seq<char>, VaultError> {
    if !is_keyfile(kf) {
        Err(VaultError::CorruptKeyfile)
    } else {
        let m = stored_record(kf);
        let k = derived_key(password, m.derivation_salt);
        if !kdf_accepts(password, m.derivation_salt) {
            Err(VaultError::KdfFailure)
        } else if !verifies(k, m.hashed_password) {
            Err(VaultError::AuthenticationFailed)
        } else {
            match decryption(k, m.nonce, m.encrypted_passphrase) {
                Ok(p) => if valid_utf8(p) {
                    Ok(decode_utf8(p))
                } else {
                    Err(VaultError::DataIntegrityFailure)
                },
                Err(e) => Err(e),
            }
        }
    }
}

/// A flow leaves the channel as it was on success, and adds exactly the
/// description of the failure otherwise.
pub open spec fn reported<T>(before: Seq<Seq<char>>, after: Seq<Seq<char>>, r: Result<T, VaultError>) -> bool {
    match r {
        Ok(_) => after == before,
        Err(e) => after == before.push(message_of(e)),
    }
}

/// The create and login flows of a vault.
pub trait VaultManagement {
    /// The session can run a flow.
    spec fn ready(&self) -> bool;

    /// Seals `master_passphrase` under a key derived from `master_password`
    /// and returns the keyfile and the database configuration. Both secrets
    /// are wiped on every path.
    fn initialize_vault_files(
        &mut self,
        master_password: &mut String,
        master_passphrase: &mut String,
        errors: &mut Notifications,
    ) -> (r: Result<NewVault, VaultError>)
        requires
            old(self).ready(),
        ensures
            final(self).ready(),
            final(master_password)@ == Seq::<char>::empty(),
            final(master_passphrase)@ == Seq::<char>::empty(),
            r is Ok <==> creation_failure(old(master_password)@, old(master_passphrase)@) is None,
            r matches Err(e) ==> creation_failure(old(master_password)@, old(master_passphrase)@)
                == Some(e),
            r matches Ok(v) ==> holds_passphrase(
                old(master_password)@,
                old(master_passphrase)@,
                v.keyfile@,
            ),
            r matches Ok(v) ==> v.connection.key@ == old(master_passphrase)@ && vault_settings(
                v.connection,
            ),
            reported(old(errors)@, final(errors)@, r),
    ;

    /// Unlocks the keyfile with `master_password` and returns the database
    /// configuration keyed by the recovered passphrase. The password and the
    /// keyfile bytes are wiped on every path.
    fn login_to_vault(
        &mut self,
        master_password: &mut String,
        keyfile: &mut Vec<u8>,
        errors: &mut Notifications,
    ) -> (r: Result<ConnectionConfig, VaultError>)
        requires
            old(self).ready(),
        ensures
            final(self).ready(),
            final(master_password)@ == Seq::<char>::empty(),
            final(keyfile)@ == Seq::<u8>::empty(),
            r matches Ok(c) ==> unlock_result(old(master_password)@, old(keyfile)@) == Ok::<
                Seq<char>,
                VaultError,
            >(c.key@) && vault_settings(c),
            r matches Err(e) ==> unlock_result(old(master_password)@, old(keyfile)@) == Err::<
                Seq<char>,
                VaultError,
            >(e),
            reported(old(errors)@, final(errors)@, r),
    ;
}

/// One open attempt: owns the key-derivation memory for its flows.
pub struct Vault {
    scratch: KeyScratch,
}

impl Vault {
    pub fn new() -> (r: Self)
        ensures
            r.ready(),
    {
        Vault { scratch: KeyScratch::new() }
    }
}

impl VaultManagement for Vault {
    closed spec fn ready(&self) -> bool {
        self.scratch.ready()
    }

    fn initialize_vault_files(
        &mut self,
        master_password: &mut String,
        master_passphrase: &mut String,
        errors: &mut Notifications,
    ) -> (r: Result<NewVault, VaultError>) {
        let r = if master_password.as_str().as_bytes().len() < MIN_PASSWORD_LEN {
            Err(VaultError::PasswordTooShort)
        } else {
            let salt = fresh_salt();
            proof {
                is_ascii_chars_encode_utf8(salt@);
            }
            let derived = derive_key(&mut self.scratch, master_password.as_str(), salt.as_str());
            wipe_scratch(&mut self.scratch);
            match derived {
                None => Err(VaultError::KdfFailure),
                Some(key) => {
                    let mut key = key;
                    let res = match encrypt(master_passphrase.as_str().as_bytes(), key.as_slice()) {
                        Err(e) => Err(e),
                        Ok(sealed) => match verification_hash(key.as_slice()) {
                            None => Err(VaultError::KdfFailure),
                            Some(hashed_password) => {
                                let rec = KeyfileRecord {
                                    hashed_password,
                                    derivation_salt: salt,
                                    nonce: sealed.nonce,
                                    encrypted_master_passphrase: sealed.ciphertext,
                                };
                                let keyfile = encode_keyfile(&rec);
                                assert(is_keyfile_encoding(keyfile@, rec@));
                                let connection = ConnectionConfig::for_key(master_passphrase.clone());
                                Ok(NewVault { keyfile, connection })
                            },
                        },
                    };
                    wipe_bytes(&mut key);
                    res
                },
            }
        };
        wipe_text(master_password);
        wipe_text(master_passphrase);
        match r {
            Ok(_) => {},
            Err(e) => errors.enqueue(e.message()),
        }
        r
    }

    fn login_to_vault(
        &mut self,
        master_password: &mut String,
        keyfile: &mut Vec<u8>,
        errors: &mut Notifications,
    ) -> (r: Result<ConnectionConfig, VaultError>) {
        let ghost kf = keyfile@;
        let r = match decode_keyfile(keyfile) {
            Err(e) => Err(e),
            Ok(rec) => {
                proof {
                    lemma_keyfile_encoding_unique(kf, rec@, stored_record(kf));
                }
                let derived = derive_key(
                    &mut self.scratch,
                    master_password.as_str(),
                    rec.derivation_salt.as_str(),
                );
                wipe_scratch(&mut self.scratch);
                match derived {
                    None => Err(VaultError::KdfFailure),
                    Some(key) => {
                        let mut key = key;
                        let res = if !check_key(key.as_slice(), rec.hashed_password.as_str()) {
                            Err(VaultError::AuthenticationFailed)
                        } else {
                            match decrypt(
                                rec.nonce.as_slice(),
                                rec.encrypted_master_passphrase.as_slice(),
                                key.as_slice(),
                            ) {
                                Err(e) => Err(e),
                                Ok(plain) => {
                                    let mut plain = plain;
                                    let text = text_from_utf8(plain.as_slice());
                                    wipe_bytes(&mut plain);
                                    match text {
                                        Some(passphrase) => Ok(ConnectionConfig::for_key(passphrase)),
                                        None => Err(VaultError::DataIntegrityFailure),
                                    }
                                },
                            }
                        };
                        wipe_bytes(&mut key);
                        res
                    },
                }
            },
        };
        wipe_text(master_password);
        wipe_bytes(keyfile);
        match r {
            Ok(_) => {},
            Err(e) => errors.enqueue(e.message()),
        }
        r
    }
}

/// Logging in with the password a vault was created with recovers exactly
/// the passphrase it was created with.
pub proof fn lemma_login_after_create(password: Seq<char>, passphrase: Seq<char>, kf: Seq<u8>)
    requires
        holds_passphrase(password, passphrase, kf),
    ensures
        unlock_result(password, kf) == Ok::<Seq<char>, VaultError>(passphrase),
{
    let m = choose|m: KeyfileView|
        #![trigger is_keyfile_encoding(kf, m)]
        is_keyfile_encoding(kf, m) && seals_passphrase(password, passphrase, m);
    assert(is_keyfile(kf));
    lemma_keyfile_encoding_unique(kf, m, stored_record(kf));
    encode_utf8_valid_utf8(passphrase);
    encode_utf8_decode_utf8(passphrase);
}

/// Logging in with another password whose key the stored verification hash
/// does not accept fails with an authentication failure and recovers nothing.
pub proof fn lemma_login_with_other_password(
    password: Seq<char>,
    passphrase: Seq<char>,
    other: Seq<char>,
    kf: Seq<u8>,
)
    requires
        holds_passphrase(password, passphrase, kf),
        other != password,
        encode_utf8(other).len() <= KDF_INPUT_MAX,
        !verifies(derived_key(other, stored_record(kf).derivation_salt), stored_record(kf).hashed_password),
    ensures
        unlock_result(other, kf) == Err::<Seq<char>, VaultError>(VaultError::AuthenticationFailed),
{
    let m = choose|m: KeyfileView|
        #![trigger is_keyfile_encoding(kf, m)]
        is_keyfile_encoding(kf, m) && seals_passphrase(password, passphrase, m);
    assert(is_keyfile(kf));
    lemma_keyfile_encoding_unique(kf, m, stored_record(kf));
}

} // verus!
