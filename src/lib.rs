//! Vault unlocking: keyfile codec, envelope encryption of the recovery
//! passphrase, and the create / login flows built on them.

pub mod channel;
pub mod codec;
pub mod crypto;
pub mod envelope;
pub mod error;
pub mod passphrase;
pub mod recovery;
pub mod vault;
