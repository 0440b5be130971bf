//! Failure conditions of the vault operations.

use vstd::prelude::*;

verus! {

/// Everything that can go wrong while sealing or opening a vault record.
///
/// Authentication failure deliberately conflates a wrong password with a
/// tampered record: the two are cryptographically indistinguishable, and a
/// single message avoids giving an oracle to a guessing attacker.
#[derive(Clone, Copy, Debug, PartialEq, Eq)]
pub enum VaultError {
    /// No record is stored.
    NotFound,
    /// The content does not consist of exactly three colon-separated fields.
    CorruptFormat,
    /// A field is not canonically padded standard base64.
    InvalidBase64,
    /// The authentication tag did not verify: wrong password or altered data.
    WrongPasswordOrCorrupt,
    /// The decrypted bytes are not valid UTF-8.
    InvalidUtf8,
    /// The plaintext exceeds the AES-GCM length limit.
    PlaintextTooLarge,
}

impl VaultError {
    /// The human-readable message for this error.
    pub open spec fn message_spec(self) -> Seq<char> {
        match self {
            VaultError::NotFound => "No vault data found"@,
            VaultError::CorruptFormat => "Corrupt data file"@,
            VaultError::InvalidBase64 => "Invalid base64 data"@,
            VaultError::WrongPasswordOrCorrupt => "Incorrect password or corrupt file"@,
            VaultError::InvalidUtf8 => "Stored data is not valid UTF-8"@,
            VaultError::PlaintextTooLarge => "Data too large to encrypt"@,
        }
    }

    /// Render the error as a message for the caller.
    pub fn message(&self) -> (m: &'static str)
        ensures
            m@ == self.message_spec(),
    {
        match self {
            VaultError::NotFound => "No vault data found",
            VaultError::CorruptFormat => "Corrupt data file",
            VaultError::InvalidBase64 => "Invalid base64 data",
            VaultError::WrongPasswordOrCorrupt => "Incorrect password or corrupt file",
            VaultError::InvalidUtf8 => "Stored data is not valid UTF-8",
            VaultError::PlaintextTooLarge => "Data too large to encrypt",
        }
    }
}

} // verus!
