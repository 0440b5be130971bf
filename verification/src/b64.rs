//! Standard base64 (RFC 4648, padded), modelled as a specification function,
//! with trusted wrappers around the `base64` crate's `STANDARD` engine.

use vstd::prelude::*;

use crate::error::VaultError;
use base64::Engine;

verus! {

/// Byte value of `=`, the padding character.
pub const PAD_BYTE: u8 = 61;

/// The base64 alphabet: `A`-`Z`, `a`-`z`, `0`-`9`, `+`, `/`, by sextet value.
pub open spec fn b64_char(i: int) -> u8 {
    if 0 <= i && i < 26 {
        (65 + i) as u8
    } else if 26 <= i && i < 52 {
        (71 + i) as u8
    } else if 52 <= i && i < 62 {
        (i - 4) as u8
    } else if i == 62 {
        43u8
    } else {
        47u8
    }
}

/// Four characters encoding a full three-byte group.
pub open spec fn b64_group3(a: u8, b: u8, c: u8) -> Seq<u8> {
    seq![
        b64_char(a as int / 4),
        b64_char((a as int % 4) * 16 + b as int / 16),
        b64_char((b as int % 16) * 4 + c as int / 64),
        b64_char(c as int % 64),
    ]
}

/// Three characters and one pad for a trailing two-byte group.
pub open spec fn b64_tail2(a: u8, b: u8) -> Seq<u8> {
    seq![
        b64_char(a as int / 4),
        b64_char((a as int % 4) * 16 + b as int / 16),
        b64_char((b as int % 16) * 4),
        PAD_BYTE,
    ]
}

/// Two characters and two pads for a trailing one-byte group.
pub open spec fn b64_tail1(a: u8) -> Seq<u8> {
    seq![b64_char(a as int / 4), b64_char((a as int % 4) * 16), PAD_BYTE, PAD_BYTE]
}

/// Standard padded base64 of a byte sequence: groups of three bytes from the
/// front, then the padded tail.
pub open spec fn b64_encode(s: Seq<u8>) -> Seq<u8>
    decreases s.len(),
{
    if s.len() >= 3 {
        b64_group3(s[0], s[1], s[2]) + b64_encode(s.skip(3))
    } else if s.len() == 2 {
        b64_tail2(s[0], s[1])
    } else if s.len() == 1 {
        b64_tail1(s[0])
    } else {
        Seq::empty()
    }
}

/// Alphabet characters are printable ASCII and are neither `:` nor `=`.
pub proof fn lemma_b64_char_range(i: int)
    requires
        0 <= i < 64,
    ensures
        43 <= b64_char(i) <= 122,
        b64_char(i) != 58,
        b64_char(i) != PAD_BYTE,
{
}

/// Distinct sextet values map to distinct alphabet characters.
pub proof fn lemma_b64_char_injective(i: int, j: int)
    requires
        0 <= i < 64,
        0 <= j < 64,
        b64_char(i) == b64_char(j),
    ensures
        i == j,
{
}

/// The encoded length is four characters for every started three-byte group.
pub proof fn lemma_b64_encode_len(s: Seq<u8>)
    ensures
        b64_encode(s).len() == 4 * ((s.len() + 2) / 3),
    decreases s.len(),
{
    if s.len() >= 3 {
        lemma_b64_encode_len(s.skip(3));
    }
}

/// No base64 output byte is a colon, so fields never collide with the separator.
pub proof fn lemma_b64_encode_no_colon(s: Seq<u8>)
    ensures
        forall|k: int| 0 <= k < b64_encode(s).len() ==> b64_encode(s)[k] != 58,
    decreases s.len(),
{
    if s.len() >= 3 {
        lemma_b64_encode_no_colon(s.skip(3));
        assert forall|k: int| 0 <= k < b64_encode(s).len() implies b64_encode(s)[k] != 58 by {
            if k < 4 {
                lemma_b64_char_range(s[0] as int / 4);
                lemma_b64_char_range((s[0] as int % 4) * 16 + s[1] as int / 16);
                lemma_b64_char_range((s[1] as int % 16) * 4 + s[2] as int / 64);
                lemma_b64_char_range(s[2] as int % 64);
            } else {
                assert(b64_encode(s)[k] == b64_encode(s.skip(3))[k - 4]);
            }
        }
    } else if s.len() == 2 {
        lemma_b64_char_range(s[0] as int / 4);
        lemma_b64_char_range((s[0] as int % 4) * 16 + s[1] as int / 16);
        lemma_b64_char_range((s[1] as int % 16) * 4);
    } else if s.len() == 1 {
        lemma_b64_char_range(s[0] as int / 4);
        lemma_b64_char_range((s[0] as int % 4) * 16);
    }
}

/// A full group and a padded tail never produce the same four characters.
proof fn lemma_b64_group3_recover(a1: u8, b1: u8, c1: u8, a2: u8, b2: u8, c2: u8)
    requires
        b64_group3(a1, b1, c1) == b64_group3(a2, b2, c2),
    ensures
        a1 == a2,
        b1 == b2,
        c1 == c2,
{
    assert(b64_group3(a1, b1, c1)[0] == b64_group3(a2, b2, c2)[0]);
    assert(b64_group3(a1, b1, c1)[1] == b64_group3(a2, b2, c2)[1]);
    assert(b64_group3(a1, b1, c1)[2] == b64_group3(a2, b2, c2)[2]);
    assert(b64_group3(a1, b1, c1)[3] == b64_group3(a2, b2, c2)[3]);
    lemma_b64_char_injective(a1 as int / 4, a2 as int / 4);
    lemma_b64_char_injective(
        (a1 as int % 4) * 16 + b1 as int / 16,
        (a2 as int % 4) * 16 + b2 as int / 16,
    );
    lemma_b64_char_injective(
        (b1 as int % 16) * 4 + c1 as int / 64,
        (b2 as int % 16) * 4 + c2 as int / 64,
    );
    lemma_b64_char_injective(c1 as int % 64, c2 as int % 64);
}

proof fn lemma_b64_tail2_recover(a1: u8, b1: u8, a2: u8, b2: u8)
    requires
        b64_tail2(a1, b1) == b64_tail2(a2, b2),
    ensures
        a1 == a2,
        b1 == b2,
{
    assert(b64_tail2(a1, b1)[0] == b64_tail2(a2, b2)[0]);
    assert(b64_tail2(a1, b1)[1] == b64_tail2(a2, b2)[1]);
    assert(b64_tail2(a1, b1)[2] == b64_tail2(a2, b2)[2]);
    lemma_b64_char_injective(a1 as int / 4, a2 as int / 4);
    lemma_b64_char_injective(
        (a1 as int % 4) * 16 + b1 as int / 16,
        (a2 as int % 4) * 16 + b2 as int / 16,
    );
    lemma_b64_char_injective((b1 as int % 16) * 4, (b2 as int % 16) * 4);
}

proof fn lemma_b64_tail1_recover(a1: u8, a2: u8)
    requires
        b64_tail1(a1) == b64_tail1(a2),
    ensures
        a1 == a2,
{
    assert(b64_tail1(a1)[0] == b64_tail1(a2)[0]);
    assert(b64_tail1(a1)[1] == b64_tail1(a2)[1]);
    lemma_b64_char_injective(a1 as int / 4, a2 as int / 4);
    lemma_b64_char_injective((a1 as int % 4) * 16, (a2 as int % 4) * 16);
}

/// Base64 is injective: equal encodings come from equal byte sequences.
pub proof fn lemma_b64_encode_injective(x: Seq<u8>, y: Seq<u8>)
    requires
        b64_encode(x) == b64_encode(y),
    ensures
        x == y,
    decreases x.len(),
{
    lemma_b64_encode_len(x);
    lemma_b64_encode_len(y);
    if x.len() == 0 {
        assert(y.len() == 0);
        assert(x =~= y);
    } else if y.len() == 0 {
        assert(x.len() == 0);
    } else if x.len() >= 3 && y.len() >= 3 {
        assert(b64_encode(x) == b64_group3(x[0], x[1], x[2]) + b64_encode(x.skip(3)));
        assert(b64_encode(y) == b64_group3(y[0], y[1], y[2]) + b64_encode(y.skip(3)));
        assert(b64_group3(x[0], x[1], x[2]) =~= b64_group3(y[0], y[1], y[2])) by {
            assert forall|k: int| 0 <= k < 4 implies b64_group3(x[0], x[1], x[2])[k]
                == b64_group3(y[0], y[1], y[2])[k] by {
                assert(b64_encode(x)[k] == b64_group3(x[0], x[1], x[2])[k]);
                assert(b64_encode(y)[k] == b64_group3(y[0], y[1], y[2])[k]);
            }
        }
        lemma_b64_group3_recover(x[0], x[1], x[2], y[0], y[1], y[2]);
        assert(b64_encode(x.skip(3)) =~= b64_encode(y.skip(3))) by {
            assert forall|k: int| 0 <= k < b64_encode(x.skip(3)).len() implies b64_encode(
                x.skip(3),
            )[k] == b64_encode(y.skip(3))[k] by {
                assert(b64_encode(x)[k + 4] == b64_encode(x.skip(3))[k]);
                assert(b64_encode(y)[k + 4] == b64_encode(y.skip(3))[k]);
            }
        }
        lemma_b64_encode_injective(x.skip(3), y.skip(3));
        assert(x =~= y) by {
            assert forall|k: int| 0 <= k < x.len() implies x[k] == y[k] by {
                if k >= 3 {
                    assert(x[k] == x.skip(3)[k - 3]);
                    assert(y[k] == y.skip(3)[k - 3]);
                }
            }
        }
    } else if x.len() >= 3 {
        // y is a padded tail; x must then be exactly three bytes, but its
        // fourth or third character is an alphabet character, never a pad.
        assert(x.len() == 3);
        assert(b64_encode(x) == b64_group3(x[0], x[1], x[2]) + b64_encode(x.skip(3)));
        assert(b64_encode(x.skip(3)) =~= Seq::<u8>::empty());
        if y.len() == 2 {
            assert(b64_encode(x)[3] == b64_char(x[2] as int % 64));
            assert(b64_encode(y)[3] == PAD_BYTE);
            lemma_b64_char_range(x[2] as int % 64);
        } else {
            assert(b64_encode(x)[2] == b64_char((x[1] as int % 16) * 4 + x[2] as int / 64));
            assert(b64_encode(y)[2] == PAD_BYTE);
            lemma_b64_char_range((x[1] as int % 16) * 4 + x[2] as int / 64);
        }
    } else if y.len() >= 3 {
        assert(y.len() == 3);
        assert(b64_encode(y) == b64_group3(y[0], y[1], y[2]) + b64_encode(y.skip(3)));
        assert(b64_encode(y.skip(3)) =~= Seq::<u8>::empty());
        if x.len() == 2 {
            assert(b64_encode(y)[3] == b64_char(y[2] as int % 64));
            assert(b64_encode(x)[3] == PAD_BYTE);
            lemma_b64_char_range(y[2] as int % 64);
        } else {
            assert(b64_encode(y)[2] == b64_char((y[1] as int % 16) * 4 + y[2] as int / 64));
            assert(b64_encode(x)[2] == PAD_BYTE);
            lemma_b64_char_range((y[1] as int % 16) * 4 + y[2] as int / 64);
        }
    } else if x.len() == 2 && y.len() == 2 {
        lemma_b64_tail2_recover(x[0], x[1], y[0], y[1]);
        assert(x =~= y);
    } else if x.len() == 1 && y.len() == 1 {
        lemma_b64_tail1_recover(x[0], y[0]);
        assert(x =~= y);
    } else if x.len() == 2 {
        // y has one byte: its third character is a pad, x's is not.
        assert(b64_encode(x)[2] == b64_char((x[1] as int % 16) * 4));
        assert(b64_encode(y)[2] == PAD_BYTE);
        lemma_b64_char_range((x[1] as int % 16) * 4);
    } else {
        assert(b64_encode(y)[2] == b64_char((y[1] as int % 16) * 4));
        assert(b64_encode(x)[2] == PAD_BYTE);
        lemma_b64_char_range((y[1] as int % 16) * 4);
    }
}

/// Relies on `base64::engine::general_purpose::STANDARD.encode`: standard
/// alphabet, padded output, as `b64_encode` states it.
#[verifier::external_body]
pub(crate) fn base64_encode(b: &[u8]) -> (r: Vec<u8>)
    ensures
        r@ == b64_encode(b@),
{
    base64::engine::general_purpose::STANDARD.encode(b).into_bytes()
}

/// Relies on `base64::engine::general_purpose::STANDARD.decode`: the engine
/// requires canonical padding and rejects set trailing bits, so it succeeds
/// exactly on the canonical encoding of some byte sequence and inverts it.
#[verifier::external_body]
pub(crate) fn base64_decode(s: &[u8]) -> (r: Result<Vec<u8>, VaultError>)
    ensures
        match r {
            Ok(b) => s@ == b64_encode(b@),
            Err(e) => e == VaultError::InvalidBase64 && forall|b: Seq<u8>| s@ != b64_encode(b),
        },
{
    base64::engine::general_purpose::STANDARD.decode(s).map_err(|_| VaultError::InvalidBase64)
}

} // verus!
