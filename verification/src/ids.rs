//! Identifiers. A UUID is held as the 128-bit number that its sixteen bytes
//! write in big-endian order, so numeric order is the order of the bytes.
use crate::bytes::{be, be_value, lemma_be_len, lemma_value_of_be, lemma_widths};
use crate::digest::{hex_bytes, hex_digit, hex_text, law_hex_round_trip};
use crate::error::Error;
use crate::text::{characters, lower, space, text_of, trim, trim_end, trim_start};
use vstd::prelude::*;

verus! {

/// A UUID as a number.
pub type Uuid = u128;

/// The canonical text of a UUID: thirty-two lower-case hexadecimal digits in
/// groups of 8, 4, 4, 4 and 12, with a hyphen between the groups.
pub open spec fn hyphenated(id: Uuid) -> Seq<char> {
    let d = |i: int| hex_digit(((be(id as nat, 16)[i / 2]) as nat / (if i % 2 == 0 { 16nat } else { 1nat })) % 16);
    Seq::new(
        36,
        |i: int|
            if i == 8 || i == 13 || i == 18 || i == 23 {
                '-'
            } else if i < 8 {
                d(i)
            } else if i < 13 {
                d(i - 1)
            } else if i < 18 {
                d(i - 2)
            } else if i < 23 {
                d(i - 3)
            } else {
                d(i - 4)
            },
    )
}

/// `uuid::Uuid::from_u128` and the `Display` of `uuid::Uuid`: the canonical
/// hyphenated lower-case text of the sixteen big-endian bytes of `id`.
#[verifier::external_body]
pub(crate) fn uuid_text(id: Uuid) -> (text: String)
    ensures
        text@ == hyphenated(id),
{
    uuid::Uuid::from_u128(id).to_string()
}

/// `uuid::Uuid::into_bytes` of `uuid::Uuid::from_u128`: the bytes of the
/// number, most significant first.
#[verifier::external_body]
pub(crate) fn uuid_bytes(id: Uuid) -> (bytes: [u8; 16])
    ensures
        bytes@ == be(id as nat, 16),
{
    uuid::Uuid::from_u128(id).into_bytes()
}

/// `uuid::Uuid::from_bytes` and `uuid::Uuid::as_u128`: the number that sixteen
/// bytes write, most significant first.
#[verifier::external_body]
pub(crate) fn uuid_from_bytes(bytes: [u8; 16]) -> (id: Uuid)
    ensures
        be(id as nat, 16) == bytes@,
{
    uuid::Uuid::from_bytes(bytes).as_u128()
}

/// `uuid::Uuid::new_v4`: a random UUID. Nothing is claimed of which one: the
/// result is chance.
#[verifier::external_body]
pub(crate) fn fresh_uuid() -> (id: Uuid)
{
    uuid::Uuid::new_v4().as_u128()
}

/// The digits of a UUID that is written with hyphens.
pub open spec fn hyphened_digits(text: Seq<char>) -> Option<Seq<char>> {
    if text.len() == 36 && text[8] == '-' && text[13] == '-' && text[18] == '-' && text[23] == '-' {
        Some(
            text.subrange(0, 8) + text.subrange(9, 13) + text.subrange(14, 18) + text.subrange(19, 23)
                + text.subrange(24, 36),
        )
    } else {
        None
    }
}

/// The digits of a UUID: bare, with hyphens, or with hyphens in braces or
/// behind `urn:uuid:` in whatever case.
pub open spec fn uuid_digits(text: Seq<char>) -> Option<Seq<char>> {
    if text.len() == 32 {
        Some(text)
    } else if text.len() == 38 && text[0] == '{' && text[37] == '}' {
        hyphened_digits(text.subrange(1, 37))
    } else if text.len() == 45 && lower(text.take(9)) == "urn:uuid:"@ {
        hyphened_digits(text.skip(9))
    } else {
        hyphened_digits(text)
    }
}

/// The UUID that a text writes; none where it has no such form, or where one
/// of its digits is not hexadecimal.
pub open spec fn uuid_in(text: Seq<char>) -> Option<Uuid> {
    match uuid_digits(text) {
        Some(digits) => match hex_bytes(digits) {
            Some(bytes) => Some(be_value(bytes) as u128),
            None => None,
        },
        None => None,
    }
}

/// What `uuid::Uuid::parse_str` says of a text that it refuses.
pub uninterp spec fn uuid_fault(text: Seq<char>) -> Seq<char>;

/// `uuid::Uuid::parse_str` and `uuid::Uuid::as_u128`: the number of a UUID that
/// is written in one of the forms of [`uuid_digits`], in digits of either case.
/// The error comes as the text of its `Display`, which depends on the input
/// alone.
#[verifier::external_body]
pub(crate) fn uuid_parse(text: &str) -> (r: Result<Uuid, String>)
    ensures
        match r {
            Ok(id) => uuid_in(text@) == Some(id),
            Err(told) => uuid_in(text@) is None && told@ == uuid_fault(text@),
        },
{
    uuid::Uuid::parse_str(text).map(|id| id.as_u128()).map_err(|error| error.to_string())
}

/// An identity as it is kept: the canonical text, and the end of a line.
pub open spec fn kept_text(id: Uuid) -> Seq<char> {
    hyphenated(id).push('\n')
}

/// The text that an identity is kept as.
pub fn identity_text(id: Uuid) -> (r: String)
    ensures
        r@ == kept_text(id),
{
    let mut text: String = uuid_text(id);
    text.push('\n');
    text
}

/// The identity that is kept as a text, white space around it aside.
pub fn identity(text: &str) -> (r: Result<Uuid, Error>)
    ensures
        match r {
            Ok(id) => uuid_in(trim_end(trim_start(text@))) == Some(id),
            Err(e) => {
                &&& uuid_in(trim_end(trim_start(text@))) is None
                &&& e is Told
                &&& e.text() == uuid_fault(trim_end(trim_start(text@)))
            },
        },
{
    let body: String = text_of(&trim(&characters(text)));
    match uuid_parse(body.as_str()) {
        Ok(id) => Ok(id),
        Err(told) => Err(Error::Told { text: told }),
    }
}

/// Where a digit of a UUID stands among the hyphens.
spec fn seat(i: int) -> int {
    if i < 8 {
        i
    } else if i < 12 {
        i + 1
    } else if i < 16 {
        i + 2
    } else if i < 20 {
        i + 3
    } else {
        i + 4
    }
}

proof fn lemma_digit(id: Uuid, i: int)
    requires
        0 <= i < 32,
    ensures
        hyphenated(id)[seat(i)] == hex_text(be(id as nat, 16))[i],
        !space(hyphenated(id)[seat(i)]),
{
    lemma_be_len(id as nat, 16);
    let b = be(id as nat, 16)[i / 2];
    let v = if i % 2 == 0 {
        b as nat / 16
    } else {
        b as nat % 16
    };
    assert(v < 16);
    assert((b as nat / (if i % 2 == 0 {
        16nat
    } else {
        1nat
    })) % 16 == v);
    assert(!space(hex_digit(v)));
}

/// An identity that was kept is found again.
pub proof fn law_identity_is_kept(id: Uuid)
    ensures
        uuid_in(trim_end(trim_start(kept_text(id)))) == Some(id),
{
    let text = hyphenated(id);
    let kept = kept_text(id);
    let bytes = be(id as nat, 16);
    assert(trim_start(kept) == kept) by {
        lemma_digit(id, 0);
        assert(kept[0] == text[seat(0)]);
    }
    assert(trim_end(kept) == text) by {
        lemma_digit(id, 31);
        assert(text.last() == text[seat(31)]);
        assert(trim_end(text) == text);
        assert(kept.drop_last() =~= text);
        assert(space(kept.last()));
    }
    let digits = hyphened_digits(text)->0;
    assert(digits =~= hex_text(bytes)) by {
        lemma_be_len(id as nat, 16);
        assert(digits.len() == 32);
        assert forall|i: int| 0 <= i < 32 implies digits[i] == hex_text(bytes)[i] by {
            lemma_digit(id, i);
            assert(digits[i] == text[seat(i)]);
        }
    }
    law_hex_round_trip(bytes);
    lemma_widths();
    lemma_value_of_be(id as nat, 16);
}

} // verus!
