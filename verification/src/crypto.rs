//! Key derivation, authenticated encryption and the other primitive
//! operations the vault relies on, behind trusted wrappers.

use vstd::prelude::*;

use crate::error::VaultError;
use aes_gcm::aead::Aead;
use aes_gcm::KeyInit;
use rand::RngCore;

verus! {

/// PBKDF2 iteration count for key derivation.
pub const PBKDF2_ITERATIONS: u32 = 100000;

/// Length in bytes of a derived symmetric key.
pub const KEY_LEN: usize = 32;

/// Length in bytes of a freshly generated salt.
pub const SALT_LEN: usize = 16;

/// Length in bytes of an AES-GCM nonce.
pub const NONCE_LEN: usize = 12;

/// Length in bytes of the authentication tag AES-GCM appends.
pub const TAG_LEN: usize = 16;

/// Longest plaintext AES-GCM encryption accepts (the `aes_gcm` crate's
/// `P_MAX`).
pub const GCM_P_MAX: u64 = 0x1000000000;

/// Longest ciphertext body AES-GCM decryption accepts (the `aes_gcm` crate's
/// `C_MAX`, which is `P_MAX` plus the tag length). Decryption is laxer than
/// encryption: a decrypted plaintext may be up to this long, 16 bytes more
/// than encryption would ever produce.
pub const GCM_C_MAX: u64 = 0x1000000010;

/// The PBKDF2-HMAC-SHA-256 derivation: a deterministic function of password,
/// salt, round count and output length.
pub uninterp spec fn pbkdf2_sha256(password: Seq<u8>, salt: Seq<u8>, rounds: u32, out_len: nat) -> Seq<u8>;

/// AES-256-GCM sealing of a plaintext under a key and nonce: the ciphertext
/// with the 16-byte authentication tag appended. Deterministic in its
/// arguments; no associated data is used.
pub uninterp spec fn aes_gcm_seal(key: Seq<u8>, nonce: Seq<u8>, plaintext: Seq<u8>) -> Seq<u8>;

/// The vault's key derivation: PBKDF2-HMAC-SHA-256 at the fixed iteration
/// count, producing a 32-byte key.
pub open spec fn derived_key(password: Seq<u8>, salt: Seq<u8>) -> Seq<u8> {
    pbkdf2_sha256(password, salt, PBKDF2_ITERATIONS, KEY_LEN as nat)
}

/// Relies on `pbkdf2::pbkdf2_hmac::<sha2::Sha256>`: fills the output buffer
/// with the PBKDF2-HMAC-SHA-256 derivation, a deterministic function of
/// password, salt and round count; any password and salt are accepted.
#[verifier::external_body]
fn pbkdf2_hmac_sha256(password: &[u8], salt: &[u8], rounds: u32, out_len: usize) -> (r: Vec<u8>)
    ensures
        r@ == pbkdf2_sha256(password@, salt@, rounds, out_len as nat),
        r@.len() == out_len,
{
    let mut key = vec![0u8; out_len];
    pbkdf2::pbkdf2_hmac::<sha2::Sha256>(password, salt, rounds, &mut key);
    key
}

/// Derive the vault's symmetric key from a master password and a salt.
pub fn derive_key(password: &[u8], salt: &[u8]) -> (r: Vec<u8>)
    ensures
        r@ == derived_key(password@, salt@),
        r@.len() == KEY_LEN,
{
    pbkdf2_hmac_sha256(password, salt, PBKDF2_ITERATIONS, KEY_LEN)
}

/// Relies on `aes_gcm::Aes256Gcm` with `Aead::encrypt`: deterministic AEAD
/// sealing that appends a 16-byte tag and fails exactly when the plaintext is
/// longer than `P_MAX` bytes.
#[verifier::external_body]
pub(crate) fn aes_gcm_encrypt(key: &[u8], nonce: &[u8], plaintext: &[u8]) -> (r: Result<
    Vec<u8>,
    VaultError,
>)
    requires
        key@.len() == KEY_LEN,
        nonce@.len() == NONCE_LEN,
    ensures
        match r {
            Ok(ct) => ct@ == aes_gcm_seal(key@, nonce@, plaintext@) && ct@.len() == plaintext@.len()
                + TAG_LEN && plaintext@.len() <= GCM_P_MAX,
            Err(e) => e == VaultError::PlaintextTooLarge && plaintext@.len() > GCM_P_MAX,
        },
{
    let cipher = aes_gcm::Aes256Gcm::new(aes_gcm::Key::<aes_gcm::Aes256Gcm>::from_slice(key));
    let nonce_arr = aes_gcm::Nonce::from_slice(nonce);
    cipher.encrypt(nonce_arr, plaintext).map_err(|_| VaultError::PlaintextTooLarge)
}

/// Relies on `aes_gcm::Aes256Gcm` with `Aead::decrypt`: verifies the appended
/// tag and inverts sealing. Decryption is deterministic, so on success the
/// result is the unique plaintext whose sealing under this key and nonce is
/// the ciphertext, and on failure no such plaintext exists. The bounds are
/// `C_MAX`, not `P_MAX`: decryption accepts ciphertext bodies up to `C_MAX`
/// bytes, so the plaintext it returns may exceed what encryption would ever
/// produce by up to the tag length, and a sealing of a plaintext within
/// `C_MAX` is always accepted, while a longer one fails on length alone.
#[verifier::external_body]
pub(crate) fn aes_gcm_decrypt(key: &[u8], nonce: &[u8], ciphertext: &[u8]) -> (r: Result<
    Vec<u8>,
    VaultError,
>)
    requires
        key@.len() == KEY_LEN,
        nonce@.len() == NONCE_LEN,
    ensures
        match r {
            Ok(pt) => ciphertext@ == aes_gcm_seal(key@, nonce@, pt@) && pt@.len() + TAG_LEN
                == ciphertext@.len() && pt@.len() <= GCM_C_MAX && (forall|other: Seq<u8>|
                other.len() <= GCM_C_MAX && ciphertext@ == aes_gcm_seal(key@, nonce@, other)
                    ==> other == pt@),
            Err(e) => e == VaultError::WrongPasswordOrCorrupt && (forall|pt: Seq<u8>|
                pt.len() <= GCM_C_MAX ==> ciphertext@ != aes_gcm_seal(key@, nonce@, pt)),
        },
{
    let cipher = aes_gcm::Aes256Gcm::new(aes_gcm::Key::<aes_gcm::Aes256Gcm>::from_slice(key));
    let nonce_arr = aes_gcm::Nonce::from_slice(nonce);
    cipher.decrypt(nonce_arr, ciphertext).map_err(|_| VaultError::WrongPasswordOrCorrupt)
}

/// Relies on `rand::rng` (the thread-local CSPRNG) and `RngCore::fill_bytes`:
/// returns a buffer of the requested length; nothing is assumed about the
/// values drawn.
#[verifier::external_body]
pub(crate) fn random_bytes(n: usize) -> (r: Vec<u8>)
    ensures
        r@.len() == n,
{
    let mut buf = vec![0u8; n];
    rand::rng().fill_bytes(&mut buf);
    buf
}

/// Relies on `String::from_utf8`: succeeds exactly on valid UTF-8 input and
/// returns the string whose encoding is that input.
#[verifier::external_body]
pub(crate) fn bytes_to_string(bytes: Vec<u8>) -> (r: Result<String, VaultError>)
    ensures
        match r {
            Ok(s) => vstd::utf8::encode_utf8(s@) == bytes@,
            Err(e) => e == VaultError::InvalidUtf8 && !vstd::utf8::valid_utf8(bytes@),
        },
{
    String::from_utf8(bytes).map_err(|_| VaultError::InvalidUtf8)
}

} // verus!
