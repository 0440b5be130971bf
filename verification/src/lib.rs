//! Password-encrypted vault records.
//!
//! A vault record is one text blob, `base64(salt):base64(nonce):base64(ciphertext)`,
//! where the ciphertext is the AES-256-GCM sealing of a UTF-8 plaintext under a
//! key derived from a master password by PBKDF2-HMAC-SHA-256. This crate holds
//! the verified core: key derivation, authenticated encryption and decryption,
//! the record grammar, and the store operations over an in-memory record that a
//! caller persists as a single file.

pub mod b64;
pub mod crypto;
pub mod error;
pub mod record;
pub mod store;

pub use error::VaultError;
pub use store::VaultStore;
