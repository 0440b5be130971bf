//! Round trips, the store life cycle, and export/import fidelity.

use vault_store::{VaultError, VaultStore};

#[test]
fn scenario_save_load_clear() {
    let mut store = VaultStore::new();
    assert!(!store.has());
    store.save("correct-horse", "{\"entries\":[]}").unwrap();
    assert!(store.has());
    let loaded = store.load("correct-horse").unwrap();
    assert_eq!(loaded, "{\"entries\":[]}");
    let wrong = store.load("wrong-password");
    assert_eq!(wrong, Err(VaultError::WrongPasswordOrCorrupt));
    store.clear();
    assert!(!store.has());
    assert_eq!(store.load("correct-horse"), Err(VaultError::NotFound));
}

#[test]
fn round_trip_simple() {
    let mut store = VaultStore::new();
    store.save("hunter2", "some secret notes").unwrap();
    assert_eq!(store.load("hunter2").unwrap(), "some secret notes");
}

#[test]
fn round_trip_unicode() {
    let mut store = VaultStore::new();
    let plaintext = "pass\u{00e9}\u{20ac}\u{1f512} caf\u{00e9}";
    let password = "m\u{00f8}t de p\u{00e5}sse";
    store.save(password, plaintext).unwrap();
    assert_eq!(store.load(password).unwrap(), plaintext);
}

#[test]
fn round_trip_empty_plaintext() {
    let mut store = VaultStore::new();
    store.save("pw", "").unwrap();
    assert_eq!(store.load("pw").unwrap(), "");
}

#[test]
fn round_trip_empty_password() {
    let mut store = VaultStore::new();
    store.save("", "content under empty password").unwrap();
    assert_eq!(store.load("").unwrap(), "content under empty password");
}

#[test]
fn save_replaces_previous_record() {
    let mut store = VaultStore::new();
    store.save("pw", "first").unwrap();
    store.save("pw", "second").unwrap();
    assert_eq!(store.load("pw").unwrap(), "second");
}

#[test]
fn load_without_record() {
    let store = VaultStore::new();
    assert_eq!(store.load("any"), Err(VaultError::NotFound));
}

#[test]
fn export_without_record() {
    let store = VaultStore::new();
    assert_eq!(store.export(), Err(VaultError::NotFound));
}

#[test]
fn import_export_identity() {
    let mut store = VaultStore::new();
    store.save("pw", "backed-up data").unwrap();
    let exported = store.export().unwrap();
    store.import(exported.clone());
    assert_eq!(store.export().unwrap(), exported);
    assert_eq!(store.load("pw").unwrap(), "backed-up data");
}

#[test]
fn import_is_verbatim() {
    let mut store = VaultStore::new();
    let junk = b"not a record at all".to_vec();
    store.import(junk.clone());
    assert!(store.has());
    assert_eq!(store.export().unwrap(), junk);
}

#[test]
fn fresh_salt_nonce_ciphertext() {
    let mut store = VaultStore::new();
    store.save("pw", "same plaintext").unwrap();
    let first = store.export().unwrap();
    store.save("pw", "same plaintext").unwrap();
    let second = store.export().unwrap();
    assert_ne!(first, second);
    let f: Vec<&[u8]> = first.split(|b| *b == b':').collect();
    let s: Vec<&[u8]> = second.split(|b| *b == b':').collect();
    assert_eq!(f.len(), 3);
    assert_eq!(s.len(), 3);
    // salt, nonce and ciphertext must each be fresh
    assert_ne!(f[0], s[0]);
    assert_ne!(f[1], s[1]);
    assert_ne!(f[2], s[2]);
}

#[test]
fn error_messages() {
    assert_eq!(VaultError::CorruptFormat.message(), "Corrupt data file");
    assert_eq!(
        VaultError::WrongPasswordOrCorrupt.message(),
        "Incorrect password or corrupt file"
    );
    assert_eq!(VaultError::NotFound.message(), "No vault data found");
}
