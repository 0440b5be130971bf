//! The vault store: one in-memory record, saved and loaded as a whole.
//!
//! The store models the single data file: the caller persists the exported
//! bytes and imports them back. Every operation is an independent, whole-record
//! transaction.

use vstd::prelude::*;

use crate::crypto::{
    aes_gcm_decrypt, aes_gcm_encrypt, aes_gcm_seal, bytes_to_string, derive_key, derived_key,
    random_bytes, GCM_P_MAX, NONCE_LEN, SALT_LEN, TAG_LEN,
};
use crate::error::VaultError;
use crate::record::{
    copy_range, decodable, decode_record, encode_record, lemma_opens_with_decoded,
    lemma_opens_with_wf, opens_with, record_bytes, saved_record, wf_record,
};
use vstd::string::StringSliceAdditionalSpecFns;
use vstd::utf8::{encode_utf8, encode_utf8_decode_utf8, encode_utf8_valid_utf8, valid_utf8};

verus! {

/// A single password-encrypted record, or nothing.
pub struct VaultStore {
    content: Option<Vec<u8>>,
}

impl View for VaultStore {
    type V = Option<Seq<u8>>;

    closed spec fn view(&self) -> Option<Seq<u8>> {
        match self.content {
            Some(c) => Some(c@),
            None => None,
        }
    }
}

impl VaultStore {
    /// An empty store: no record yet.
    pub fn new() -> (v: VaultStore)
        ensures
            v@ is None,
    {
        VaultStore { content: None }
    }

    /// Whether a record is stored.
    pub fn has(&self) -> (b: bool)
        ensures
            b == (self@ is Some),
    {
        self.content.is_some()
    }

    /// Delete the record; succeeds whether or not one was stored.
    pub fn clear(&mut self)
        ensures
            final(self)@ is None,
    {
        self.content = None;
    }

    /// Replace the record verbatim with the given raw content. No validation
    /// happens here; a corrupt import surfaces later, when loading.
    pub fn import(&mut self, content: Vec<u8>)
        ensures
            final(self)@ == Some(content@),
    {
        self.content = Some(content);
    }

    /// Encrypt a plaintext under the master password and store the record:
    /// generate a fresh salt and nonce, derive the key, seal the plaintext
    /// and encode the three fields. Any previous record is replaced whole.
    /// Fails only when the plaintext exceeds the AES-GCM length limit, and
    /// then leaves the store unchanged.
    pub fn save(&mut self, password: &str, plaintext: &str) -> (r: Result<(), VaultError>)
        ensures
            match r {
                Ok(_) => final(self)@ matches Some(c) && saved_record(
                    c,
                    password.spec_bytes(),
                    plaintext.spec_bytes(),
                ),
                Err(e) => e == VaultError::PlaintextTooLarge && plaintext.spec_bytes().len()
                    > GCM_P_MAX as nat && final(self)@ == old(self)@,
            },
            plaintext.spec_bytes().len() <= GCM_P_MAX as nat ==> r matches Ok(_),
    {
        let salt = random_bytes(SALT_LEN);
        let nonce = random_bytes(NONCE_LEN);
        let key = derive_key(password.as_bytes(), salt.as_slice());
        let ct = match aes_gcm_encrypt(key.as_slice(), nonce.as_slice(), plaintext.as_bytes()) {
            Err(e) => {
                return Err(e);
            },
            Ok(ct) => ct,
        };
        let content = encode_record(&salt, &nonce, &ct);
        proof {
            let pw = password.spec_bytes();
            let pt = plaintext.spec_bytes();
            assert(content@ == record_bytes(pw, salt@, nonce@, pt));
            assert(aes_gcm_seal(derived_key(pw, salt@), nonce@, pt).len() == pt.len() + TAG_LEN
                as nat);
            assert(saved_record(content@, pw, pt));
        }
        self.content = Some(content);
        Ok(())
    }

    /// Decrypt the stored record with the master password. Succeeds exactly
    /// when a record is stored, its grammar and base64 fields are intact, its
    /// ciphertext is the sealing of some plaintext under the key this
    /// password derives with the record's salt, and that plaintext is UTF-8 —
    /// and then returns exactly that plaintext.
    pub fn load(&self, password: &str) -> (r: Result<String, VaultError>)
        ensures
            match r {
                Ok(pt) => self@ matches Some(c) && opens_with(
                    c,
                    password.spec_bytes(),
                    encode_utf8(pt@),
                ),
                Err(e) => match e {
                    VaultError::NotFound => self@ is None,
                    VaultError::CorruptFormat => self@ matches Some(c) && !wf_record(c),
                    VaultError::InvalidBase64 => self@ matches Some(c) && wf_record(c)
                        && !decodable(c),
                    VaultError::WrongPasswordOrCorrupt => self@ matches Some(c) && decodable(c)
                        && (forall|pt: Seq<u8>| !opens_with(c, password.spec_bytes(), pt)),
                    VaultError::InvalidUtf8 => self@ matches Some(c) && (exists|pt: Seq<u8>|
                        opens_with(c, password.spec_bytes(), pt) && !valid_utf8(pt)),
                    _ => false,
                },
            },
            forall|pt: Seq<char>|
                (self@ matches Some(c) && opens_with(
                    c,
                    password.spec_bytes(),
                    #[trigger] encode_utf8(pt),
                )) ==> (r matches Ok(s) && s@ == pt),
    {
        let ghost pw = password.spec_bytes();
        let content = match &self.content {
            None => {
                return Err(VaultError::NotFound);
            },
            Some(c) => c,
        };
        let (salt, nonce, ct) = match decode_record(content) {
            Err(e) => {
                proof {
                    assert forall|pt: Seq<char>|
                        opens_with(content@, pw, encode_utf8(pt)) implies false by {
                        lemma_opens_with_wf(content@, pw, encode_utf8(pt));
                    }
                }
                return Err(e);
            },
            Ok(parts) => parts,
        };
        if nonce.len() != NONCE_LEN {
            proof {
                assert(decodable(content@));
                assert forall|pt: Seq<u8>| opens_with(content@, pw, pt) implies false by {
                    lemma_opens_with_decoded(content@, pw, pt, salt@, nonce@, ct@);
                }
            }
            return Err(VaultError::WrongPasswordOrCorrupt);
        }
        let key = derive_key(password.as_bytes(), salt.as_slice());
        let ptb = match aes_gcm_decrypt(key.as_slice(), nonce.as_slice(), ct.as_slice()) {
            Err(e) => {
                proof {
                    assert(decodable(content@));
                    assert forall|pt: Seq<u8>| opens_with(content@, pw, pt) implies false by {
                        lemma_opens_with_decoded(content@, pw, pt, salt@, nonce@, ct@);
                    }
                }
                return Err(e);
            },
            Ok(p) => p,
        };
        proof {
            assert(content@ == record_bytes(pw, salt@, nonce@, ptb@));
            assert(opens_with(content@, pw, ptb@));
        }
        match bytes_to_string(ptb) {
            Err(e) => {
                proof {
                    assert forall|pt: Seq<char>|
                        opens_with(content@, pw, encode_utf8(pt)) implies false by {
                        lemma_opens_with_decoded(content@, pw, encode_utf8(pt), salt@, nonce@, ct@);
                        encode_utf8_valid_utf8(pt);
                    }
                }
                Err(e)
            },
            Ok(s) => {
                proof {
                    assert forall|pt: Seq<char>|
                        opens_with(content@, pw, encode_utf8(pt)) implies pt == s@ by {
                        lemma_opens_with_decoded(content@, pw, encode_utf8(pt), salt@, nonce@, ct@);
                        encode_utf8_decode_utf8(pt);
                        encode_utf8_decode_utf8(s@);
                    }
                }
                Ok(s)
            },
        }
    }

    /// Return the raw record verbatim, without decrypting.
    pub fn export(&self) -> (r: Result<Vec<u8>, VaultError>)
        ensures
            match r {
                Ok(c) => self@ == Some(c@),
                Err(e) => e == VaultError::NotFound && self@ is None,
            },
    {
        match &self.content {
            None => Err(VaultError::NotFound),
            Some(c) => {
                let copy = copy_range(c, 0, c.len());
                proof {
                    assert(c@.subrange(0, c@.len() as int) =~= c@);
                }
                Ok(copy)
            },
        }
    }
}

} // verus!
