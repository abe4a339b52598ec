use vstd::prelude::*;
use vstd::string::StringExecFns;

verus! {

/// Every way a vault flow can fail.
#[derive(PartialEq, Eq, Structural, Clone, Copy, Debug)]
pub enum VaultError {
    Io,
    CorruptKeyfile,
    KdfFailure,
    AuthenticationFailed,
    DataIntegrityFailure,
    SchemaBootstrapFailure,
    SerializationFailure,
    EncryptionFailure,
    PasswordTooShort,
}

/// The text reported for each failure; none of it carries secret material.
pub open spec fn message_of(e: VaultError) -> Seq<char> {
    match e {
        VaultError::Io => "Failed to access the vault files"@,
        VaultError::CorruptKeyfile => "Corrupt keyfile"@,
        VaultError::KdfFailure => "Unexpected Error: could not derive key"@,
        VaultError::AuthenticationFailed => "wrong password"@,
        VaultError::DataIntegrityFailure => "Unexpected Error: could not decode ciphertext"@,
        VaultError::SchemaBootstrapFailure => "Unexpected Error: could not setup database schema"@,
        VaultError::SerializationFailure => "Unexpected Error: Failed to serialize data"@,
        VaultError::EncryptionFailure => "Unexpected Error: could not encrypt payload"@,
        VaultError::PasswordTooShort => "Please make your Master password at least 16 characters long"@,
    }
}

impl VaultError {
    /// The user-facing description of this failure.
    pub fn message(&self) -> (r: String)
        ensures
            r@ == message_of(*self),
    {
        match self {
            VaultError::Io => String::from_str("Failed to access the vault files"),
            VaultError::CorruptKeyfile => String::from_str("Corrupt keyfile"),
            VaultError::KdfFailure => String::from_str("Unexpected Error: could not derive key"),
            VaultError::AuthenticationFailed => String::from_str("wrong password"),
            VaultError::DataIntegrityFailure => String::from_str(
                "Unexpected Error: could not decode ciphertext",
            ),
            VaultError::SchemaBootstrapFailure => String::from_str(
                "Unexpected Error: could not setup database schema",
            ),
            VaultError::SerializationFailure => String::from_str(
                "Unexpected Error: Failed to serialize data",
            ),
            VaultError::EncryptionFailure => String::from_str(
                "Unexpected Error: could not encrypt payload",
            ),
            VaultError::PasswordTooShort => String::from_str(
                "Please make your Master password at least 16 characters long",
            ),
        }
    }
}

} // verus!
