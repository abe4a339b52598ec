use keylight::channel::Notifications;
use keylight::error::VaultError;
use keylight::passphrase::join_passphrase;
use keylight::vault::{JournalMode, Vault, VaultManagement};

const WORDS: [&str; 24] = [
    "apple", "banana", "cherry", "date", "elder", "fig", "grape", "hazel", "iris", "juniper",
    "kiwi", "lemon", "mango", "nectar", "olive", "peach", "quince", "raisin", "sage", "thyme",
    "umber", "vanilla", "walnut", "yarrow",
];

fn passphrase() -> String {
    let words: Vec<String> = WORDS.iter().map(|w| w.to_string()).collect();
    join_passphrase(&words)
}

#[test]
fn create_then_login_recovers_passphrase() {
    let mut vault = Vault::new();
    let mut errors = Notifications::new();
    let mut password = "A".repeat(16);
    let mut recovery = passphrase();
    let created = vault
        .initialize_vault_files(&mut password, &mut recovery, &mut errors)
        .expect("creation succeeds");
    assert!(password.is_empty());
    assert!(recovery.is_empty());
    assert_eq!(created.connection.key, passphrase());
    assert!(created.connection.foreign_keys);
    assert_eq!(created.connection.journal_mode, JournalMode::Off);
    assert!(created.connection.create_if_missing);

    let mut keyfile = created.keyfile.clone();
    let mut login_password = "A".repeat(16);
    let config = vault
        .login_to_vault(&mut login_password, &mut keyfile, &mut errors)
        .expect("login succeeds");
    assert_eq!(config.key, passphrase());
    assert!(login_password.is_empty());
    assert!(keyfile.is_empty());
    assert_eq!(errors.len(), 0);
}

#[test]
fn login_with_other_password_fails_authentication() {
    let mut vault = Vault::new();
    let mut errors = Notifications::new();
    let mut password = "correct horse battery".to_string();
    let mut recovery = passphrase();
    let created = vault
        .initialize_vault_files(&mut password, &mut recovery, &mut errors)
        .expect("creation succeeds");
    let mut keyfile = created.keyfile.clone();
    let mut other = "incorrect horse battery".to_string();
    let r = vault.login_to_vault(&mut other, &mut keyfile, &mut errors);
    assert!(matches!(r, Err(VaultError::AuthenticationFailed)));
    assert!(other.is_empty());
    assert_eq!(errors.dequeue_oldest(), Some("wrong password".to_string()));
    assert_eq!(errors.dequeue_oldest(), None);
}

#[test]
fn short_password_is_rejected() {
    let mut vault = Vault::new();
    let mut errors = Notifications::new();
    let mut password = "short".to_string();
    let mut recovery = passphrase();
    let r = vault.initialize_vault_files(&mut password, &mut recovery, &mut errors);
    assert!(matches!(r, Err(VaultError::PasswordTooShort)));
    assert!(password.is_empty());
    assert!(recovery.is_empty());
    assert_eq!(
        errors.dequeue_oldest(),
        Some("Please make your Master password at least 16 characters long".to_string())
    );
}

#[test]
fn fifteen_byte_password_is_rejected() {
    let mut vault = Vault::new();
    let mut errors = Notifications::new();
    let mut password = "B".repeat(15);
    let mut recovery = passphrase();
    let r = vault.initialize_vault_files(&mut password, &mut recovery, &mut errors);
    assert!(matches!(r, Err(VaultError::PasswordTooShort)));
}

#[test]
fn flipped_keyfile_byte_is_corrupt() {
    let mut vault = Vault::new();
    let mut errors = Notifications::new();
    let mut password = "A".repeat(16);
    let mut recovery = passphrase();
    let created = vault
        .initialize_vault_files(&mut password, &mut recovery, &mut errors)
        .expect("creation succeeds");
    let mut keyfile = created.keyfile.clone();
    keyfile[0] ^= 0xff;
    let mut login_password = "A".repeat(16);
    let r = vault.login_to_vault(&mut login_password, &mut keyfile, &mut errors);
    assert!(matches!(r, Err(VaultError::CorruptKeyfile)));
    let message = errors.dequeue_oldest().expect("a failure is reported");
    assert_eq!(message, "Corrupt keyfile");
    assert!(!message.contains("apple"));
    assert!(!message.contains(&"A".repeat(16)));
}

#[test]
fn login_on_garbage_is_corrupt() {
    let mut vault = Vault::new();
    let mut errors = Notifications::new();
    let mut keyfile = vec![1u8, 2, 3];
    let mut password = "A".repeat(16);
    let r = vault.login_to_vault(&mut password, &mut keyfile, &mut errors);
    assert!(matches!(r, Err(VaultError::CorruptKeyfile)));
    assert!(keyfile.is_empty());
    assert!(password.is_empty());
}

#[test]
fn flipped_ciphertext_byte_fails_integrity() {
    let mut vault = Vault::new();
    let mut errors = Notifications::new();
    let mut password = "A".repeat(16);
    let mut recovery = passphrase();
    let created = vault
        .initialize_vault_files(&mut password, &mut recovery, &mut errors)
        .expect("creation succeeds");
    let record = keylight::codec::decode_keyfile(&created.keyfile).ok().expect("decodes");
    assert_eq!(record.nonce.len(), 24);
    assert_eq!(record.derivation_salt.len(), 22);
    assert_eq!(record.encrypted_master_passphrase.len(), passphrase().len() + 16);
    let mut keyfile = created.keyfile.clone();
    let last = keyfile.len() - 1;
    keyfile[last] ^= 0x01;
    let mut login_password = "A".repeat(16);
    let r = vault.login_to_vault(&mut login_password, &mut keyfile, &mut errors);
    assert!(matches!(r, Err(VaultError::DataIntegrityFailure)));
    let message = errors.dequeue_oldest().expect("a failure is reported");
    assert!(!message.contains("apple"));
    assert_eq!(errors.dequeue_oldest(), None);
}
