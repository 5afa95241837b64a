//! Fingerprints of an entity's change-relevant fields.
//!
//! A fingerprint is the lower-case hexadecimal form of the SHA-256 hash of a
//! canonical encoding of the fields: every text and every list is prefixed by
//! its length, every optional value by a presence byte.

use sha2::{Digest, Sha256};
use vstd::bytes::{spec_u32_to_le_bytes, spec_u64_to_le_bytes};
use vstd::prelude::*;
use vstd::utf8::encode_utf8;

verus! {

/// The SHA-256 hash of a byte sequence.
pub uninterp spec fn sha256(data: Seq<u8>) -> Seq<u8>;

/// The error kinds of the `bincode` crate, of which nothing is read here.
#[verifier::external_type_specification]
#[verifier::external_body]
pub struct ExBincodeErrorKind(bincode::ErrorKind);

/// The character that stands for a value below sixteen in lower-case
/// hexadecimal notation.
pub open spec fn hex_digit(nibble: int) -> char {
    if nibble < 10 {
        ('0' as int + nibble) as char
    } else {
        ('a' as int + nibble - 10) as char
    }
}

/// Lower-case hexadecimal form of a byte sequence: two digits for each byte,
/// the high half first.
pub open spec fn hex_lower(bytes: Seq<u8>) -> Seq<char> {
    Seq::new(
        2 * bytes.len(),
        |i: int| hex_digit(if i % 2 == 0 { bytes[i / 2] as int / 16 } else { bytes[i / 2] as int % 16 }),
    )
}

/// A length as it is written in front of a text or a list: eight bytes,
/// least significant first.
pub open spec fn encode_len(n: nat) -> Seq<u8> {
    spec_u64_to_le_bytes(n as u64)
}

/// A text: the length of its UTF-8 form, then that form.
pub open spec fn encode_text(text: Seq<char>) -> Seq<u8> {
    encode_len(encode_utf8(text).len()) + encode_utf8(text)
}

/// The texts of a list one after the other, without the list's length.
pub open spec fn encode_texts(texts: Seq<Seq<char>>) -> Seq<u8>
    decreases texts.len(),
{
    if texts.len() == 0 {
        Seq::empty()
    } else {
        encode_text(texts.first()) + encode_texts(texts.drop_first())
    }
}

/// A list of texts: the number of texts, then each text.
pub open spec fn encode_text_list(texts: Seq<Seq<char>>) -> Seq<u8> {
    encode_len(texts.len()) + encode_texts(texts)
}

/// An optional list of texts: a zero byte where it is absent, else a one
/// byte and the list.
pub open spec fn encode_optional_text_list(texts: Option<Seq<Seq<char>>>) -> Seq<u8> {
    match texts {
        None => seq![0u8],
        Some(texts) => seq![1u8] + encode_text_list(texts),
    }
}

/// An optional count: a zero byte where it is absent, else a one byte and
/// the count's four bytes in two's complement, least significant first.
pub open spec fn encode_optional_count(count: Option<i32>) -> Seq<u8> {
    match count {
        None => seq![0u8],
        Some(count) => seq![1u8] + spec_u32_to_le_bytes(count as u32),
    }
}

/// Canonical encoding of a repository's tracked fields, in the order topics,
/// languages, stars.
pub open spec fn repository_encoding(
    topics: Option<Seq<Seq<char>>>,
    languages: Option<Seq<Seq<char>>>,
    stars: Option<i32>,
) -> Seq<u8> {
    encode_optional_text_list(topics) + encode_optional_text_list(languages)
        + encode_optional_count(stars)
}

/// Canonical encoding of an issue's tracked fields, in the order title,
/// labels.
pub open spec fn issue_encoding(title: Seq<char>, labels: Seq<Seq<char>>) -> Seq<u8> {
    encode_text(title) + encode_text_list(labels)
}

/// The fingerprint of an encoding.
pub open spec fn fingerprint_of(encoding: Seq<u8>) -> Seq<char> {
    hex_lower(sha256(encoding))
}

/// `Sha256::digest` of the `sha2` crate: the SHA-256 hash of `data`, which
/// has 32 bytes.
#[verifier::external_body]
fn sha256_digest(data: &Vec<u8>) -> (hash: Vec<u8>)
    ensures
        hash@ == sha256(data@),
        hash@.len() == 32,
{
    Sha256::digest(data).to_vec()
}

/// `hex::encode`: each byte as two lower-case hexadecimal digits, in order.
#[verifier::external_body]
fn hex_encode(bytes: &Vec<u8>) -> (text: String)
    ensures
        text@ == hex_lower(bytes@),
{
    hex::encode(bytes)
}

/// `bincode::serialize` on the triple of a repository's tracked fields.  With
/// the settings of that function a tuple is its members in order, an option a
/// presence byte and the value, a list and a text a 64-bit length and the
/// items or UTF-8 bytes, an integer its little-endian bytes.  The call
/// succeeds on these fields: that function sets no size limit, a list always
/// has a length, and the bytes are written to a vector.
#[verifier::external_body]
pub(crate) fn serialize_repository_fields(
    topics: &Option<Vec<String>>,
    languages: &Option<Vec<String>>,
    stars: &Option<i32>,
) -> (encoded: Result<Vec<u8>, Box<bincode::ErrorKind>>)
    ensures
        encoded is Ok,
        encoded matches Ok(bytes) ==> bytes@ == repository_encoding(
            topics.deep_view(),
            languages.deep_view(),
            *stars,
        ),
{
    bincode::serialize(&(topics, languages, stars))
}

/// `bincode::serialize` on the pair of an issue's tracked fields, encoded as
/// described for the repository's.  The call succeeds on these fields, for
/// the same reasons.
#[verifier::external_body]
pub(crate) fn serialize_issue_fields(title: &String, labels: &Vec<String>) -> (encoded: Result<
    Vec<u8>,
    Box<bincode::ErrorKind>,
>)
    ensures
        encoded is Ok,
        encoded matches Ok(bytes) ==> bytes@ == issue_encoding(title@, labels.deep_view()),
{
    bincode::serialize(&(title, labels))
}

/// Fingerprint of an encoding: 64 lower-case hexadecimal digits.
pub fn fingerprint(encoding: &Vec<u8>) -> (digest: String)
    ensures
        digest@ == fingerprint_of(encoding@),
        digest@.len() == 64,
{
    let hash = sha256_digest(encoding);
    hex_encode(&hash)
}

} // verus!
