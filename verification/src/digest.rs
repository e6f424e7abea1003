//! Digests, message authentication codes and hexadecimal text.
use vstd::prelude::*;

verus! {

/// The hexadecimal digit of value `v`, in lower case.
pub open spec fn hex_digit(v: nat) -> char {
    if v < 10 {
        (('0' as u32) + v) as char
    } else {
        (('a' as u32) + (v - 10)) as char
    }
}

/// Two lower-case hexadecimal digits for each byte, high half first.
pub open spec fn hex_text(bytes: Seq<u8>) -> Seq<char> {
    Seq::new(
        bytes.len() * 2,
        |i: int| hex_digit(if i % 2 == 0 { bytes[i / 2] as nat / 16 } else { bytes[i / 2] as nat % 16 }),
    )
}

/// The value of a hexadecimal digit of either case.
pub open spec fn hex_value(c: char) -> Option<nat> {
    if '0' <= c && c <= '9' {
        Some((c as u32 - '0' as u32) as nat)
    } else if 'a' <= c && c <= 'f' {
        Some((c as u32 - 'a' as u32 + 10) as nat)
    } else if 'A' <= c && c <= 'F' {
        Some((c as u32 - 'A' as u32 + 10) as nat)
    } else {
        None
    }
}

/// The bytes that `text` writes in hexadecimal: none if a character is no
/// hexadecimal digit or the number of digits is odd.
pub open spec fn hex_bytes(text: Seq<char>) -> Option<Seq<u8>> {
    if text.len() % 2 == 0 && forall|i: int| 0 <= i < text.len() ==> hex_value(#[trigger] text[i]) is Some {
        Some(
            Seq::new(
                text.len() / 2,
                |i: int| (hex_value(text[2 * i])->0 * 16 + hex_value(text[2 * i + 1])->0) as u8,
            ),
        )
    } else {
        None
    }
}

/// The BLAKE3 digest of `input`.
pub uninterp spec fn blake3_digest(input: Seq<u8>) -> Seq<u8>;

/// The HMAC-SHA256 code of `message` under `key`.
pub uninterp spec fn hmac_sha256_code(key: Seq<u8>, message: Seq<u8>) -> Seq<u8>;

/// The bytes that a BLAKE3 hasher has taken in so far, in order; none for one
/// that has a key, a context or an input offset.
pub uninterp spec fn absorbed(hasher: blake3::Hasher) -> Option<Seq<u8>>;

/// The incremental BLAKE3 hasher `blake3::Hasher`.
#[verifier::external_type_specification]
#[verifier::external_body]
pub struct ExHasher(blake3::Hasher);

/// `blake3::hash`: the 32-byte digest of the input.
#[verifier::external_body]
pub(crate) fn blake3_hash(input: &[u8]) -> (digest: [u8; 32])
    ensures
        digest@ == blake3_digest(input@),
{
    *blake3::hash(input).as_bytes()
}

/// `blake3::Hasher::new`: a plain hasher that has taken in nothing.
#[verifier::external_body]
pub(crate) fn hasher_new() -> (hasher: blake3::Hasher)
    ensures
        absorbed(hasher) == Some(Seq::<u8>::empty()),
{
    blake3::Hasher::new()
}

/// `blake3::Hasher::update` of a plain hasher: takes in `input` after what was
/// taken in before.
#[verifier::external_body]
pub(crate) fn hasher_update(hasher: &mut blake3::Hasher, input: &[u8])
    requires
        absorbed(*old(hasher)) is Some,
    ensures
        absorbed(*final(hasher)) == Some(absorbed(*old(hasher))->0 + input@),
{
    hasher.update(input);
}

/// `blake3::Hasher::finalize` of a plain hasher: the digest of everything taken
/// in, the same that `blake3::hash` gives of it in one piece.
#[verifier::external_body]
pub(crate) fn hasher_finalize(hasher: &blake3::Hasher) -> (digest: [u8; 32])
    requires
        absorbed(*hasher) is Some,
    ensures
        digest@ == blake3_digest(absorbed(*hasher)->0),
{
    *hasher.finalize().as_bytes()
}

/// `hmac::Hmac<sha2::Sha256>` (`Mac::new_from_slice`, which takes a key of any
/// length, `Mac::update`, `Mac::finalize`): the 32-byte code of the message.
#[verifier::external_body]
pub(crate) fn hmac_sha256(key: &[u8], message: &[u8]) -> (code: [u8; 32])
    ensures
        code@ == hmac_sha256_code(key@, message@),
{
    let mut mac = <hmac::Hmac<sha2::Sha256> as hmac::Mac>::new_from_slice(key).expect("HMAC takes a key of any length");
    hmac::Mac::update(&mut mac, message);
    hmac::Mac::finalize(mac).into_bytes().into()
}

/// `Mac::verify_slice` of `hmac::Hmac<sha2::Sha256>`: whether `tag` is the whole
/// code of the message, compared in constant time.
#[verifier::external_body]
pub(crate) fn hmac_sha256_matches(key: &[u8], message: &[u8], tag: &[u8]) -> (same: bool)
    ensures
        same == (tag@ == hmac_sha256_code(key@, message@)),
{
    let mut mac = <hmac::Hmac<sha2::Sha256> as hmac::Mac>::new_from_slice(key).expect("HMAC takes a key of any length");
    hmac::Mac::update(&mut mac, message);
    hmac::Mac::verify_slice(mac, tag).is_ok()
}

/// `hex::encode`: two lower-case digits for each byte.
#[verifier::external_body]
pub(crate) fn hex_encode(bytes: &[u8]) -> (text: String)
    ensures
        text@ == hex_text(bytes@),
{
    hex::encode(bytes)
}

/// What `hex::decode` says of a text that it refuses.
pub uninterp spec fn hex_fault(text: Seq<char>) -> Seq<char>;

/// `hex::decode`: the bytes of hexadecimal text of either case, and an error
/// where a character is no digit or their number is odd. The error comes as
/// the text of its `Display`, which depends on the input alone.
#[verifier::external_body]
pub(crate) fn hex_decode(text: &str) -> (bytes: Result<Vec<u8>, String>)
    ensures
        match bytes {
            Ok(b) => hex_bytes(text@) == Some(b@),
            Err(told) => hex_bytes(text@) is None && told@ == hex_fault(text@),
        },
{
    hex::decode(text).map_err(|error| error.to_string())
}

/// Hexadecimal text reads back as the bytes it was made of.
pub proof fn law_hex_round_trip(bytes: Seq<u8>)
    ensures
        hex_bytes(hex_text(bytes)) == Some(bytes),
{
    let text = hex_text(bytes);
    assert forall|i: int| 0 <= i < text.len() implies hex_value(#[trigger] text[i]) == Some(
        if i % 2 == 0 {
            bytes[i / 2] as nat / 16
        } else {
            bytes[i / 2] as nat % 16
        },
    ) by {
        let v = if i % 2 == 0 {
            bytes[i / 2] as nat / 16
        } else {
            bytes[i / 2] as nat % 16
        };
        assert(v < 16);
        assert(hex_value(hex_digit(v)) == Some(v));
    }
    let back = hex_bytes(text)->0;
    assert forall|i: int| 0 <= i < bytes.len() implies back[i] == bytes[i] by {
        let a = text[2 * i];
        let b = text[2 * i + 1];
        assert((2 * i) / 2 == i && (2 * i) % 2 == 0);
        assert((2 * i + 1) / 2 == i && (2 * i + 1) % 2 == 1);
        assert(hex_value(a) == Some(bytes[i] as nat / 16));
        assert(hex_value(b) == Some(bytes[i] as nat % 16));
    }
    assert(back =~= bytes);
}

} // verus!
