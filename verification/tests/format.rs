//! The record grammar: exactly three colon-separated base64 fields.

use base64::engine::general_purpose::STANDARD;
use base64::Engine;
use vault_store::{VaultError, VaultStore};

fn load_imported(content: &[u8]) -> Result<String, VaultError> {
    let mut store = VaultStore::new();
    store.import(content.to_vec());
    store.load("pw")
}

#[test]
fn missing_separator() {
    assert_eq!(load_imported(b"abcdef"), Err(VaultError::CorruptFormat));
}

#[test]
fn one_separator_only() {
    assert_eq!(load_imported(b"AAAA:BBBB"), Err(VaultError::CorruptFormat));
}

#[test]
fn too_many_separators() {
    assert_eq!(load_imported(b"AAAA:BBBB:CCCC:DDDD"), Err(VaultError::CorruptFormat));
}

#[test]
fn empty_content() {
    assert_eq!(load_imported(b""), Err(VaultError::CorruptFormat));
}

#[test]
fn invalid_base64_field() {
    assert_eq!(load_imported(b"!!!!:AAAA:AAAA"), Err(VaultError::InvalidBase64));
    assert_eq!(load_imported(b"AAAA:!!!!:AAAA"), Err(VaultError::InvalidBase64));
    assert_eq!(load_imported(b"AAAA:AAAA:!!!!"), Err(VaultError::InvalidBase64));
}

#[test]
fn non_canonical_base64_rejected() {
    // unpadded and non-canonical forms are not what the encoder writes
    assert_eq!(load_imported(b"AAA:AAAA:AAAA"), Err(VaultError::InvalidBase64));
}

#[test]
fn saved_record_structure() {
    let mut store = VaultStore::new();
    store.save("structural password", "twelve bytes").unwrap();
    let content = store.export().unwrap();
    let fields: Vec<&[u8]> = content.split(|b| *b == b':').collect();
    assert_eq!(fields.len(), 3);
    let salt = STANDARD.decode(fields[0]).unwrap();
    let nonce = STANDARD.decode(fields[1]).unwrap();
    let ciphertext = STANDARD.decode(fields[2]).unwrap();
    assert_eq!(salt.len(), 16);
    assert_eq!(nonce.len(), 12);
    // GCM appends a 16-byte tag to the 12-byte plaintext
    assert_eq!(ciphertext.len(), 12 + 16);
}

#[test]
fn exported_record_is_ascii_text() {
    let mut store = VaultStore::new();
    store.save("pw", "binary-safe?").unwrap();
    let content = store.export().unwrap();
    for b in content {
        assert!(b.is_ascii() && !b.is_ascii_control());
    }
}
