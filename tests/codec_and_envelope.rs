use keylight::channel::Notifications;
use keylight::codec::{decode_keyfile, encode_keyfile, KeyfileRecord};
use keylight::envelope::{decrypt, encrypt};
use keylight::error::VaultError;
use keylight::passphrase::join_passphrase;
use keylight::recovery::UiRecovery;
use keylight::vault::ConnectionConfig;

fn sample(cipher_len: usize) -> KeyfileRecord {
    KeyfileRecord {
        hashed_password: "$argon2id$v=19$m=19456,t=2,p=1$c2FsdHNhbHQ$aGFzaGhhc2g".to_string(),
        derivation_salt: "c2FsdHNhbHRzYWx0".to_string(),
        nonce: (0..24u8).collect(),
        encrypted_master_passphrase: (0..cipher_len).map(|i| (i * 7) as u8).collect(),
    }
}

#[test]
fn keyfile_round_trip() {
    for len in [0usize, 1, 127, 128, 300, 20000] {
        let rec = sample(len);
        let bytes = encode_keyfile(&rec);
        let back = decode_keyfile(&bytes).ok().expect("decodes");
        assert_eq!(back.hashed_password, rec.hashed_password);
        assert_eq!(back.derivation_salt, rec.derivation_salt);
        assert_eq!(back.nonce, rec.nonce);
        assert_eq!(back.encrypted_master_passphrase, rec.encrypted_master_passphrase);
    }
}

#[test]
fn keyfile_bytes_match_postcard() {
    let rec = sample(200);
    let expected = postcard::to_allocvec(&(
        rec.hashed_password.clone(),
        rec.derivation_salt.clone(),
        rec.nonce.clone(),
        rec.encrypted_master_passphrase.clone(),
    ))
    .unwrap();
    assert_eq!(encode_keyfile(&rec), expected);
}

#[test]
fn keyfile_varint_length_prefix() {
    let rec = sample(300);
    let bytes = encode_keyfile(&rec);
    let tail = &bytes[bytes.len() - 302..];
    assert_eq!(tail[0], 0xac);
    assert_eq!(tail[1], 0x02);
}

#[test]
fn truncated_keyfile_is_corrupt() {
    let bytes = encode_keyfile(&sample(40));
    for cut in 0..bytes.len() {
        let r = decode_keyfile(&bytes[..cut].to_vec());
        assert!(matches!(r, Err(VaultError::CorruptKeyfile)));
    }
    let mut longer = bytes.clone();
    longer.push(0);
    assert!(matches!(decode_keyfile(&longer), Err(VaultError::CorruptKeyfile)));
}

#[test]
fn keyfile_with_short_nonce_is_corrupt() {
    let mut rec = sample(10);
    rec.nonce.truncate(12);
    let bytes = encode_keyfile(&rec);
    assert!(matches!(decode_keyfile(&bytes), Err(VaultError::CorruptKeyfile)));
}

#[test]
fn keyfile_with_invalid_utf8_is_corrupt() {
    let mut bytes = encode_keyfile(&sample(10));
    bytes[1] = 0xff;
    assert!(matches!(decode_keyfile(&bytes), Err(VaultError::CorruptKeyfile)));
}

#[test]
fn envelope_round_trip() {
    let key = [9u8; 32];
    let sealed = encrypt(b"recovery words", &key).ok().expect("encrypts");
    assert_eq!(sealed.nonce.len(), 24);
    assert_ne!(sealed.ciphertext, b"recovery words".to_vec());
    assert_eq!(sealed.ciphertext.len(), 14 + 16);
    let plain = decrypt(&sealed.nonce, &sealed.ciphertext, &key).ok().expect("decrypts");
    assert_eq!(plain, b"recovery words".to_vec());
}

#[test]
fn envelope_wrong_key_fails() {
    let sealed = encrypt(b"secret", &[1u8; 32]).ok().unwrap();
    let r = decrypt(&sealed.nonce, &sealed.ciphertext, &[2u8; 32]);
    assert!(matches!(r, Err(VaultError::DataIntegrityFailure)));
}

#[test]
fn envelope_bit_flip_fails() {
    let key = [3u8; 32];
    let sealed = encrypt(b"secret passphrase", &key).ok().unwrap();
    for i in 0..sealed.ciphertext.len() {
        let mut c = sealed.ciphertext.clone();
        c[i] ^= 0x01;
        assert!(matches!(decrypt(&sealed.nonce, &c, &key), Err(VaultError::DataIntegrityFailure)));
    }
}

#[test]
fn envelope_bad_nonce_length_fails() {
    let key = [3u8; 32];
    let sealed = encrypt(b"x", &key).ok().unwrap();
    let r = decrypt(&sealed.nonce[..12], &sealed.ciphertext, &key);
    assert!(matches!(r, Err(VaultError::DataIntegrityFailure)));
}

#[test]
fn nonces_do_not_repeat() {
    let mut seen = std::collections::HashSet::new();
    for i in 0..500u32 {
        let mut key = [0u8; 32];
        key[..4].copy_from_slice(&i.to_le_bytes());
        let sealed = encrypt(b"p", &key).ok().unwrap();
        assert!(seen.insert(sealed.nonce));
    }
}

#[test]
fn notifications_are_fifo() {
    let mut n = Notifications::new();
    assert_eq!(n.dequeue_oldest(), None);
    n.enqueue("first".to_string());
    n.enqueue("second".to_string());
    assert_eq!(n.len(), 2);
    assert_eq!(n.dequeue_oldest(), Some("first".to_string()));
    assert_eq!(n.dequeue_oldest(), Some("second".to_string()));
    assert_eq!(n.dequeue_oldest(), None);
}

#[test]
fn expect_throw_reports_failures() {
    let mut n = Notifications::new();
    let ok: Result<u32, String> = Ok(5);
    assert_eq!(ok.expect_throw(&mut n, "unused"), Ok(5));
    assert_eq!(n.len(), 0);
    let bad: Result<u32, String> = Err("boom".to_string());
    assert_eq!(bad.expect_throw(&mut n, "Failed to write data to file"), Err(0));
    let none: Option<u32> = None;
    assert_eq!(none.expect_throw(&mut n, "missing"), Err(0));
    assert_eq!(Some(7u32).expect_throw(&mut n, "unused"), Ok(7));
    assert_eq!(n.dequeue_oldest(), Some("Failed to write data to file".to_string()));
    assert_eq!(n.dequeue_oldest(), Some("missing".to_string()));
    assert_eq!(n.dequeue_oldest(), None);
}

#[test]
fn passphrase_words_joined_by_tilde() {
    let words = vec!["apple".to_string(), "Banana".to_string(), "cherry".to_string()];
    assert_eq!(join_passphrase(&words), "apple~Banana~cherry");
    assert_eq!(join_passphrase(&vec!["solo".to_string()]), "solo");
    assert_eq!(join_passphrase(&Vec::new()), "");
}

#[test]
fn key_pragma_is_quoted() {
    let c = ConnectionConfig::for_key("apple~banana".to_string());
    assert_eq!(c.key_pragma(), "'apple~banana'");
    assert!(c.cipher_memory_security);
}

#[test]
fn error_messages() {
    assert_eq!(VaultError::AuthenticationFailed.message(), "wrong password");
    assert_eq!(VaultError::CorruptKeyfile.message(), "Corrupt keyfile");
    assert_eq!(
        VaultError::EncryptionFailure.message(),
        "Unexpected Error: could not encrypt payload"
    );
}
