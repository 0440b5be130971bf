//! The on-disk record grammar: three base64 fields joined by `:`, holding
//! salt, nonce and sealed plaintext.

use vstd::prelude::*;

use crate::b64::{
    b64_encode, base64_decode, base64_encode, lemma_b64_encode_injective, lemma_b64_encode_no_colon,
};
use crate::crypto::{aes_gcm_seal, derived_key, GCM_C_MAX, GCM_P_MAX, NONCE_LEN, SALT_LEN, TAG_LEN};
use crate::error::VaultError;

verus! {

/// Byte value of `:`, the field separator.
pub const COLON: u8 = 58;

/// No byte of the sequence is the separator.
pub open spec fn colon_free(s: Seq<u8>) -> bool {
    forall|k: int| 0 <= k < s.len() ==> s[k] != COLON
}

/// The content is the three given colon-free fields joined by separators.
pub open spec fn splits_into(c: Seq<u8>, p0: Seq<u8>, p1: Seq<u8>, p2: Seq<u8>) -> bool {
    c == p0 + seq![COLON] + p1 + seq![COLON] + p2 && colon_free(p0) && colon_free(p1)
        && colon_free(p2)
}

/// The record grammar admits the content: exactly three fields.
pub open spec fn wf_record(c: Seq<u8>) -> bool {
    exists|p0: Seq<u8>, p1: Seq<u8>, p2: Seq<u8>| splits_into(c, p0, p1, p2)
}

/// The content encodes precisely this salt, nonce and ciphertext.
pub open spec fn encodes_triple(c: Seq<u8>, salt: Seq<u8>, nonce: Seq<u8>, ct: Seq<u8>) -> bool {
    c == b64_encode(salt) + seq![COLON] + b64_encode(nonce) + seq![COLON] + b64_encode(ct)
}

/// All three fields are valid base64 of some byte sequences.
pub open spec fn decodable(c: Seq<u8>) -> bool {
    exists|salt: Seq<u8>, nonce: Seq<u8>, ct: Seq<u8>| encodes_triple(c, salt, nonce, ct)
}

/// The full record for a password, salt, nonce and plaintext: each field
/// base64-encoded, the ciphertext sealed under the derived key.
pub open spec fn record_bytes(pw: Seq<u8>, salt: Seq<u8>, nonce: Seq<u8>, pt: Seq<u8>) -> Seq<u8> {
    b64_encode(salt) + seq![COLON] + b64_encode(nonce) + seq![COLON] + b64_encode(
        aes_gcm_seal(derived_key(pw, salt), nonce, pt),
    )
}

/// What a save produces: a record with a fresh 16-byte salt and 12-byte
/// nonce, whose sealed field is the encrypted payload plus the 16-byte tag.
pub open spec fn saved_record(c: Seq<u8>, pw: Seq<u8>, pt: Seq<u8>) -> bool {
    exists|salt: Seq<u8>, nonce: Seq<u8>|
        salt.len() == SALT_LEN as nat && nonce.len() == NONCE_LEN as nat && pt.len() <= GCM_P_MAX
            as nat && aes_gcm_seal(derived_key(pw, salt), nonce, pt).len() == pt.len() + TAG_LEN
            as nat && c == record_bytes(pw, salt, nonce, pt)
}

/// What a load accepts: a record whose ciphertext is the sealing of this
/// plaintext under the key the password derives with the record's own salt.
/// The salt may have any length; the nonce must have the AES-GCM nonce
/// length; the plaintext is bounded by what decryption accepts (`C_MAX`),
/// which exceeds what encryption produces by the tag length.
pub open spec fn opens_with(c: Seq<u8>, pw: Seq<u8>, pt: Seq<u8>) -> bool {
    exists|salt: Seq<u8>, nonce: Seq<u8>|
        nonce.len() == NONCE_LEN as nat && pt.len() <= GCM_C_MAX as nat && c == record_bytes(
            pw,
            salt,
            nonce,
            pt,
        )
}

/// Where each byte of a split content comes from, and that the separator
/// occurs exactly at the two field boundaries.
pub proof fn lemma_splits_into_index(c: Seq<u8>, p0: Seq<u8>, p1: Seq<u8>, p2: Seq<u8>)
    requires
        splits_into(c, p0, p1, p2),
    ensures
        c.len() == p0.len() + p1.len() + p2.len() + 2,
        forall|k: int| 0 <= k < p0.len() ==> c[k] == p0[k],
        c[p0.len() as int] == COLON,
        forall|k: int| 0 <= k < p1.len() ==> c[p0.len() + 1 + k] == p1[k],
        c[(p0.len() + p1.len() + 1) as int] == COLON,
        forall|k: int| 0 <= k < p2.len() ==> c[p0.len() + p1.len() + 2 + k] == p2[k],
        forall|k: int|
            0 <= k < c.len() && k != p0.len() && k != p0.len() + p1.len() + 1 ==> c[k] != COLON,
{
    let s = seq![COLON];
    assert(c == p0 + s + p1 + s + p2);
    assert forall|k: int|
        0 <= k < c.len() && k != p0.len() && k != p0.len() + p1.len() + 1 implies c[k]
        != COLON by {
        if k < p0.len() {
            assert(c[k] == p0[k]);
        } else if k < p0.len() + 1 + p1.len() {
            assert(c[k] == p1[k - p0.len() - 1]);
        } else {
            assert(c[k] == p2[k - p0.len() - p1.len() - 2]);
        }
    }
}

/// A content splits into colon-free fields in at most one way.
pub proof fn lemma_splits_into_unique(
    c: Seq<u8>,
    p0: Seq<u8>,
    p1: Seq<u8>,
    p2: Seq<u8>,
    q0: Seq<u8>,
    q1: Seq<u8>,
    q2: Seq<u8>,
)
    requires
        splits_into(c, p0, p1, p2),
        splits_into(c, q0, q1, q2),
    ensures
        p0 == q0,
        p1 == q1,
        p2 == q2,
{
    lemma_splits_into_index(c, p0, p1, p2);
    lemma_splits_into_index(c, q0, q1, q2);
    if p0.len() < q0.len() {
        assert(c[p0.len() as int] != COLON);
        assert(false);
    }
    if q0.len() < p0.len() {
        assert(c[q0.len() as int] != COLON);
        assert(false);
    }
    if p1.len() < q1.len() {
        assert(c[(p0.len() + p1.len() + 1) as int] != COLON);
        assert(false);
    }
    if q1.len() < p1.len() {
        assert(c[(q0.len() + q1.len() + 1) as int] != COLON);
        assert(false);
    }
    assert(p0 =~= q0);
    assert(p1 =~= q1);
    assert(p2 =~= q2) by {
        assert forall|k: int| 0 <= k < p2.len() implies p2[k] == q2[k] by {
            assert(c[p0.len() + p1.len() + 2 + k] == p2[k]);
            assert(c[q0.len() + q1.len() + 2 + k] == q2[k]);
        }
    }
}

/// An encoded triple matches the grammar, its fields being base64 output.
pub proof fn lemma_encodes_triple_splits(c: Seq<u8>, salt: Seq<u8>, nonce: Seq<u8>, ct: Seq<u8>)
    requires
        encodes_triple(c, salt, nonce, ct),
    ensures
        splits_into(c, b64_encode(salt), b64_encode(nonce), b64_encode(ct)),
{
    lemma_b64_encode_no_colon(salt);
    lemma_b64_encode_no_colon(nonce);
    lemma_b64_encode_no_colon(ct);
}

/// A content encodes at most one triple of byte sequences.
pub proof fn lemma_encodes_triple_unique(
    c: Seq<u8>,
    s1: Seq<u8>,
    n1: Seq<u8>,
    t1: Seq<u8>,
    s2: Seq<u8>,
    n2: Seq<u8>,
    t2: Seq<u8>,
)
    requires
        encodes_triple(c, s1, n1, t1),
        encodes_triple(c, s2, n2, t2),
    ensures
        s1 == s2,
        n1 == n2,
        t1 == t2,
{
    lemma_encodes_triple_splits(c, s1, n1, t1);
    lemma_encodes_triple_splits(c, s2, n2, t2);
    lemma_splits_into_unique(
        c,
        b64_encode(s1),
        b64_encode(n1),
        b64_encode(t1),
        b64_encode(s2),
        b64_encode(n2),
        b64_encode(t2),
    );
    lemma_b64_encode_injective(s1, s2);
    lemma_b64_encode_injective(n1, n2);
    lemma_b64_encode_injective(t1, t2);
}

/// A record that opens is well-formed and decodable.
pub proof fn lemma_opens_with_wf(c: Seq<u8>, pw: Seq<u8>, pt: Seq<u8>)
    requires
        opens_with(c, pw, pt),
    ensures
        wf_record(c),
        decodable(c),
{
    let (salt, nonce) = choose|salt: Seq<u8>, nonce: Seq<u8>|
        nonce.len() == NONCE_LEN as nat && pt.len() <= GCM_C_MAX as nat && c == record_bytes(
            pw,
            salt,
            nonce,
            pt,
        );
    let ct = aes_gcm_seal(derived_key(pw, salt), nonce, pt);
    assert(encodes_triple(c, salt, nonce, ct));
    lemma_encodes_triple_splits(c, salt, nonce, ct);
}

/// If a record opens with a plaintext and also decodes to a concrete triple,
/// the triple is pinned: the ciphertext is the sealing of that plaintext
/// under the key derived with the decoded salt and nonce.
pub proof fn lemma_opens_with_decoded(
    c: Seq<u8>,
    pw: Seq<u8>,
    pt: Seq<u8>,
    salt: Seq<u8>,
    nonce: Seq<u8>,
    ct: Seq<u8>,
)
    requires
        opens_with(c, pw, pt),
        encodes_triple(c, salt, nonce, ct),
    ensures
        nonce.len() == NONCE_LEN as nat,
        pt.len() <= GCM_C_MAX as nat,
        ct == aes_gcm_seal(derived_key(pw, salt), nonce, pt),
{
    let (salt2, nonce2) = choose|salt2: Seq<u8>, nonce2: Seq<u8>|
        nonce2.len() == NONCE_LEN as nat && pt.len() <= GCM_C_MAX as nat && c == record_bytes(
            pw,
            salt2,
            nonce2,
            pt,
        );
    let ct2 = aes_gcm_seal(derived_key(pw, salt2), nonce2, pt);
    assert(encodes_triple(c, salt2, nonce2, ct2));
    lemma_encodes_triple_unique(c, salt, nonce, ct, salt2, nonce2, ct2);
}

/// Round trip: the record written for a password, fresh salt and nonce, and a
/// plaintext within the AEAD limit is a record that opens with that password
/// and that plaintext.
pub proof fn lemma_round_trip(pw: Seq<u8>, salt: Seq<u8>, nonce: Seq<u8>, pt: Seq<u8>)
    requires
        salt.len() == SALT_LEN as nat,
        nonce.len() == NONCE_LEN as nat,
        pt.len() <= GCM_P_MAX as nat,
    ensures
        opens_with(record_bytes(pw, salt, nonce, pt), pw, pt),
{
}

/// A record that a save produced opens with the same password and plaintext:
/// load's success condition covers everything save writes.
pub proof fn lemma_saved_record_opens(c: Seq<u8>, pw: Seq<u8>, pt: Seq<u8>)
    requires
        saved_record(c, pw, pt),
    ensures
        opens_with(c, pw, pt),
{
    let (salt, nonce) = choose|salt: Seq<u8>, nonce: Seq<u8>|
        salt.len() == SALT_LEN as nat && nonce.len() == NONCE_LEN as nat && pt.len() <= GCM_P_MAX
            as nat && aes_gcm_seal(derived_key(pw, salt), nonce, pt).len() == pt.len() + TAG_LEN
            as nat && c == record_bytes(pw, salt, nonce, pt);
    assert(opens_with(c, pw, pt));
}

/// Find the first separator at or after `from`.
fn find_colon(c: &Vec<u8>, from: usize) -> (r: Option<usize>)
    requires
        from <= c@.len(),
    ensures
        match r {
            Some(i) => from <= i < c@.len() && c@[i as int] == COLON && (forall|k: int|
                from <= k < i ==> c@[k] != COLON),
            None => forall|k: int| from <= k < c@.len() ==> c@[k] != COLON,
        },
{
    let mut i: usize = from;
    while i < c.len()
        invariant
            from <= i <= c@.len(),
            forall|k: int| from <= k < i ==> c@[k] != COLON,
        decreases c@.len() - i,
    {
        if c[i] == COLON {
            return Some(i);
        }
        i = i + 1;
    }
    None
}

/// Copy the bytes of `c` in `[from, to)` into a fresh vector.
pub(crate) fn copy_range(c: &Vec<u8>, from: usize, to: usize) -> (r: Vec<u8>)
    requires
        from <= to,
        to <= c@.len(),
    ensures
        r@ == c@.subrange(from as int, to as int),
{
    let mut r: Vec<u8> = Vec::new();
    let mut i: usize = from;
    while i < to
        invariant
            from <= i <= to,
            to <= c@.len(),
            r@ == c@.subrange(from as int, i as int),
        decreases to - i,
    {
        r.push(c[i]);
        proof {
            assert(c@.subrange(from as int, i + 1) =~= c@.subrange(from as int, i as int).push(
                c@[i as int],
            ));
        }
        i = i + 1;
    }
    r
}

/// Split a content into its three fields, or report that the grammar is
/// violated: success exactly when the content has exactly three fields.
pub(crate) fn split_record(c: &Vec<u8>) -> (r: Result<(Vec<u8>, Vec<u8>, Vec<u8>), VaultError>)
    ensures
        match r {
            Ok(parts) => splits_into(c@, parts.0@, parts.1@, parts.2@),
            Err(e) => e == VaultError::CorruptFormat && !wf_record(c@),
        },
{
    let n = c.len();
    let i = match find_colon(c, 0) {
        None => {
            proof {
                if wf_record(c@) {
                    let (p0, p1, p2) = choose|p0: Seq<u8>, p1: Seq<u8>, p2: Seq<u8>|
                        splits_into(c@, p0, p1, p2);
                    lemma_splits_into_index(c@, p0, p1, p2);
                }
            }
            return Err(VaultError::CorruptFormat);
        },
        Some(i) => i,
    };
    let j = match find_colon(c, i + 1) {
        None => {
            proof {
                if wf_record(c@) {
                    let (p0, p1, p2) = choose|p0: Seq<u8>, p1: Seq<u8>, p2: Seq<u8>|
                        splits_into(c@, p0, p1, p2);
                    lemma_splits_into_index(c@, p0, p1, p2);
                    // Two distinct separator positions exist, yet only index i
                    // holds a separator.
                    assert(p0.len() == i);
                    assert(c@[(p0.len() + p1.len() + 1) as int] == COLON);
                }
            }
            return Err(VaultError::CorruptFormat);
        },
        Some(j) => j,
    };
    match find_colon(c, j + 1) {
        Some(t) => {
            proof {
                if wf_record(c@) {
                    let (p0, p1, p2) = choose|p0: Seq<u8>, p1: Seq<u8>, p2: Seq<u8>|
                        splits_into(c@, p0, p1, p2);
                    lemma_splits_into_index(c@, p0, p1, p2);
                    // Separators occur at three distinct indices i < j < t,
                    // but the grammar allows only two positions.
                }
            }
            return Err(VaultError::CorruptFormat);
        },
        None => {},
    }
    let p0 = copy_range(c, 0, i);
    let p1 = copy_range(c, i + 1, j);
    let p2 = copy_range(c, j + 1, c.len());
    proof {
        let s = seq![COLON];
        assert(c@ =~= p0@ + s + p1@ + s + p2@) by {
            assert forall|k: int| 0 <= k < c@.len() implies c@[k] == (p0@ + s + p1@ + s + p2@)[k] by {
                if k < i {
                    assert((p0@ + s + p1@ + s + p2@)[k] == p0@[k]);
                } else if k == i {
                    assert((p0@ + s + p1@ + s + p2@)[k] == COLON);
                } else if k < j {
                    assert((p0@ + s + p1@ + s + p2@)[k] == p1@[k - i - 1]);
                } else if k == j {
                    assert((p0@ + s + p1@ + s + p2@)[k] == COLON);
                } else {
                    assert((p0@ + s + p1@ + s + p2@)[k] == p2@[k - j - 1]);
                }
            }
        }
    }
    Ok((p0, p1, p2))
}

/// Join three fields with separators into one content.
pub(crate) fn join_record(p0: &Vec<u8>, p1: &Vec<u8>, p2: &Vec<u8>) -> (r: Vec<u8>)
    ensures
        r@ == p0@ + seq![COLON] + p1@ + seq![COLON] + p2@,
{
    let mut r: Vec<u8> = Vec::new();
    append_bytes(&mut r, p0);
    r.push(COLON);
    append_bytes(&mut r, p1);
    r.push(COLON);
    append_bytes(&mut r, p2);
    proof {
        assert(r@ =~= p0@ + seq![COLON] + p1@ + seq![COLON] + p2@);
    }
    r
}

/// Append all bytes of `src` to `dst`.
fn append_bytes(dst: &mut Vec<u8>, src: &Vec<u8>)
    ensures
        final(dst)@ == old(dst)@ + src@,
{
    let mut i: usize = 0;
    while i < src.len()
        invariant
            i <= src@.len(),
            dst@ == old(dst)@ + src@.subrange(0, i as int),
        decreases src@.len() - i,
    {
        dst.push(src[i]);
        proof {
            assert(src@.subrange(0, i + 1) =~= src@.subrange(0, i as int).push(src@[i as int]));
            assert(old(dst)@ + src@.subrange(0, i + 1) =~= (old(dst)@ + src@.subrange(
                0,
                i as int,
            )).push(src@[i as int]));
        }
        i = i + 1;
    }
    proof {
        assert(src@.subrange(0, src@.len() as int) =~= src@);
    }
}

/// Base64-encode the three components and join them into a record.
pub(crate) fn encode_record(salt: &Vec<u8>, nonce: &Vec<u8>, ct: &Vec<u8>) -> (r: Vec<u8>)
    ensures
        encodes_triple(r@, salt@, nonce@, ct@),
{
    let e_salt = base64_encode(salt.as_slice());
    let e_nonce = base64_encode(nonce.as_slice());
    let e_ct = base64_encode(ct.as_slice());
    join_record(&e_salt, &e_nonce, &e_ct)
}

/// Split a content and base64-decode its fields: success exactly when the
/// grammar holds and every field is valid base64.
pub(crate) fn decode_record(c: &Vec<u8>) -> (r: Result<(Vec<u8>, Vec<u8>, Vec<u8>), VaultError>)
    ensures
        match r {
            Ok(parts) => encodes_triple(c@, parts.0@, parts.1@, parts.2@),
            Err(e) => match e {
                VaultError::CorruptFormat => !wf_record(c@),
                VaultError::InvalidBase64 => wf_record(c@) && !decodable(c@),
                _ => false,
            },
        },
{
    let parts = match split_record(c) {
        Err(e) => {
            return Err(e);
        },
        Ok(parts) => parts,
    };
    let salt = match base64_decode(parts.0.as_slice()) {
        Err(e) => {
            proof {
                lemma_not_decodable(c@, parts.0@, parts.1@, parts.2@, 0);
            }
            return Err(e);
        },
        Ok(salt) => salt,
    };
    let nonce = match base64_decode(parts.1.as_slice()) {
        Err(e) => {
            proof {
                lemma_not_decodable(c@, parts.0@, parts.1@, parts.2@, 1);
            }
            return Err(e);
        },
        Ok(nonce) => nonce,
    };
    let ct = match base64_decode(parts.2.as_slice()) {
        Err(e) => {
            proof {
                lemma_not_decodable(c@, parts.0@, parts.1@, parts.2@, 2);
            }
            return Err(e);
        },
        Ok(ct) => ct,
    };
    Ok((salt, nonce, ct))
}

/// If a split content has a field that is not valid base64, the content
/// decodes to no triple.
proof fn lemma_not_decodable(c: Seq<u8>, p0: Seq<u8>, p1: Seq<u8>, p2: Seq<u8>, which: int)
    requires
        splits_into(c, p0, p1, p2),
        which == 0 ==> forall|b: Seq<u8>| p0 != b64_encode(b),
        which == 1 ==> forall|b: Seq<u8>| p1 != b64_encode(b),
        which == 2 ==> forall|b: Seq<u8>| p2 != b64_encode(b),
        0 <= which <= 2,
    ensures
        !decodable(c),
{
    if decodable(c) {
        let (salt, nonce, ct) = choose|salt: Seq<u8>, nonce: Seq<u8>, ct: Seq<u8>|
            encodes_triple(c, salt, nonce, ct);
        lemma_encodes_triple_splits(c, salt, nonce, ct);
        lemma_splits_into_unique(
            c,
            p0,
            p1,
            p2,
            b64_encode(salt),
            b64_encode(nonce),
            b64_encode(ct),
        );
    }
}

} // verus!
