//! Wrong passwords, tampered records, and records built with the crypto
//! primitives directly: the store must agree with the primitives and must
//! reject every altered record.

use aes_gcm::aead::Aead;
use aes_gcm::{Aes256Gcm, Key, KeyInit, Nonce};
use base64::engine::general_purpose::STANDARD;
use base64::Engine;
use pbkdf2::pbkdf2_hmac;
use sha2::Sha256;
use vault_store::{VaultError, VaultStore};

fn derive(password: &str, salt: &[u8]) -> [u8; 32] {
    let mut key = [0u8; 32];
    pbkdf2_hmac::<Sha256>(password.as_bytes(), salt, 100_000, &mut key);
    key
}

fn make_record(password: &str, salt: &[u8], nonce: &[u8], plaintext: &[u8]) -> Vec<u8> {
    let key = derive(password, salt);
    let cipher = Aes256Gcm::new(Key::<Aes256Gcm>::from_slice(&key));
    let ciphertext = cipher.encrypt(Nonce::from_slice(nonce), plaintext).unwrap();
    format!(
        "{}:{}:{}",
        STANDARD.encode(salt),
        STANDARD.encode(nonce),
        STANDARD.encode(ciphertext)
    )
    .into_bytes()
}

fn split_fields(content: &[u8]) -> (Vec<u8>, Vec<u8>, Vec<u8>) {
    let fields: Vec<&[u8]> = content.split(|b| *b == b':').collect();
    assert_eq!(fields.len(), 3);
    (
        STANDARD.decode(fields[0]).unwrap(),
        STANDARD.decode(fields[1]).unwrap(),
        STANDARD.decode(fields[2]).unwrap(),
    )
}

fn join_fields(salt: &[u8], nonce: &[u8], ciphertext: &[u8]) -> Vec<u8> {
    format!(
        "{}:{}:{}",
        STANDARD.encode(salt),
        STANDARD.encode(nonce),
        STANDARD.encode(ciphertext)
    )
    .into_bytes()
}

#[test]
fn wrong_password_rejected() {
    let mut store = VaultStore::new();
    store.save("right horse", "battery staple").unwrap();
    assert_eq!(store.load("wrong horse"), Err(VaultError::WrongPasswordOrCorrupt));
    assert_eq!(store.load("right horse "), Err(VaultError::WrongPasswordOrCorrupt));
    assert_eq!(store.load(""), Err(VaultError::WrongPasswordOrCorrupt));
}

#[test]
fn ciphertext_bit_flip_detected() {
    let mut store = VaultStore::new();
    store.save("pw", "integrity matters").unwrap();
    let content = store.export().unwrap();
    let (salt, nonce, ciphertext) = split_fields(&content);
    // flip one bit at the start, the middle and the end of the ciphertext,
    // covering both the encrypted body and the tag
    let positions = [0, ciphertext.len() / 2, ciphertext.len() - 1];
    for &pos in positions.iter() {
        for bit in [0u8, 7u8] {
            let mut tampered = ciphertext.clone();
            tampered[pos] ^= 1 << bit;
            store.import(join_fields(&salt, &nonce, &tampered));
            assert_eq!(store.load("pw"), Err(VaultError::WrongPasswordOrCorrupt));
        }
    }
}

#[test]
fn nonce_tampering_detected() {
    let mut store = VaultStore::new();
    store.save("pw", "nonce check").unwrap();
    let content = store.export().unwrap();
    let (salt, nonce, ciphertext) = split_fields(&content);
    let mut tampered = nonce.clone();
    tampered[0] ^= 0x01;
    store.import(join_fields(&salt, &tampered, &ciphertext));
    assert_eq!(store.load("pw"), Err(VaultError::WrongPasswordOrCorrupt));
}

#[test]
fn salt_tampering_detected() {
    let mut store = VaultStore::new();
    store.save("pw", "salt check").unwrap();
    let content = store.export().unwrap();
    let (salt, nonce, ciphertext) = split_fields(&content);
    let mut tampered = salt.clone();
    tampered[5] ^= 0x80;
    store.import(join_fields(&tampered, &nonce, &ciphertext));
    assert_eq!(store.load("pw"), Err(VaultError::WrongPasswordOrCorrupt));
}

#[test]
fn record_built_with_primitives_loads() {
    let salt = [7u8; 16];
    let nonce = [9u8; 12];
    let record = make_record("primitive pw", &salt, &nonce, b"built by hand");
    let mut store = VaultStore::new();
    store.import(record);
    assert_eq!(store.load("primitive pw").unwrap(), "built by hand");
}

#[test]
fn saved_record_decrypts_with_primitives() {
    let mut store = VaultStore::new();
    store.save("cross check", "both sides agree").unwrap();
    let content = store.export().unwrap();
    let (salt, nonce, ciphertext) = split_fields(&content);
    let key = derive("cross check", &salt);
    let cipher = Aes256Gcm::new(Key::<Aes256Gcm>::from_slice(&key));
    let plaintext = cipher
        .decrypt(Nonce::from_slice(&nonce), ciphertext.as_slice())
        .unwrap();
    assert_eq!(plaintext, b"both sides agree");
}

#[test]
fn non_utf8_plaintext_rejected() {
    let salt = [1u8; 16];
    let nonce = [2u8; 12];
    let record = make_record("pw", &salt, &nonce, &[0xff, 0xfe, 0x00, 0x80]);
    let mut store = VaultStore::new();
    store.import(record);
    assert_eq!(store.load("pw"), Err(VaultError::InvalidUtf8));
}

#[test]
fn wrong_nonce_length_rejected() {
    // a record whose nonce field decodes to eight bytes cannot authenticate
    let salt = [3u8; 16];
    let short_nonce = [4u8; 8];
    let content = join_fields(&salt, &short_nonce, &[5u8; 24]);
    let mut store = VaultStore::new();
    store.import(content);
    assert_eq!(store.load("pw"), Err(VaultError::WrongPasswordOrCorrupt));
}
