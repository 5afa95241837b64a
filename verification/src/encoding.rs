//! The canonical encoding tells any two values apart: what is encoded can
//! be read back from the bytes, so that two fingerprints differ unless the
//! fields are the same or SHA-256 gives two different encodings one hash.

use crate::digest::{
    encode_len, encode_optional_count, encode_optional_text_list, encode_text, encode_text_list,
    encode_texts, hex_digit, hex_lower, issue_encoding, repository_encoding, sha256,
};
use crate::model::{IssueView, RepositoryView};
use vstd::bytes::{
    lemma_auto_spec_u32_to_from_le_bytes, lemma_auto_spec_u64_to_from_le_bytes,
    spec_u32_to_le_bytes,
};
use vstd::prelude::*;
use vstd::utf8::{encode_utf8, encode_utf8_decode_utf8};

verus! {

/// Whether the length of a text's UTF-8 form can be written in 64 bits.
pub open spec fn text_fits(text: Seq<char>) -> bool {
    encode_utf8(text).len() <= u64::MAX
}

/// Whether the number of texts and the length of each can be written in 64
/// bits.
pub open spec fn texts_fit(texts: Seq<Seq<char>>) -> bool {
    &&& texts.len() <= u64::MAX
    &&& forall|i: int| 0 <= i < texts.len() ==> text_fits(#[trigger] texts[i])
}

/// Whether an optional list of texts, if present, fits.
pub open spec fn optional_texts_fit(texts: Option<Seq<Seq<char>>>) -> bool {
    texts matches Some(texts) ==> texts_fit(texts)
}

/// Whether two different byte sequences have the same SHA-256 hash.
pub open spec fn sha256_collides(left: Seq<u8>, right: Seq<u8>) -> bool {
    left != right && sha256(left) == sha256(right)
}

/// Two byte sequences with the same hexadecimal form are the same.
pub proof fn lemma_hex_lower_unique(left: Seq<u8>, right: Seq<u8>)
    requires
        hex_lower(left) == hex_lower(right),
    ensures
        left == right,
{
    assert(hex_lower(left).len() == 2 * left.len());
    assert(hex_lower(right).len() == 2 * right.len());
    assert forall|i: int| 0 <= i < left.len() implies left[i] == right[i] by {
        let high = hex_lower(left)[2 * i];
        let low = hex_lower(left)[2 * i + 1];
        assert(high == hex_lower(right)[2 * i]);
        assert(low == hex_lower(right)[2 * i + 1]);
        assert((2 * i) / 2 == i && (2 * i) % 2 == 0);
        assert((2 * i + 1) / 2 == i && (2 * i + 1) % 2 == 1);
        assert(high == hex_digit(left[i] as int / 16));
        assert(high == hex_digit(right[i] as int / 16));
        assert(low == hex_digit(left[i] as int % 16));
        assert(low == hex_digit(right[i] as int % 16));
        lemma_hex_digit_unique(left[i] as int / 16, right[i] as int / 16);
        lemma_hex_digit_unique(left[i] as int % 16, right[i] as int % 16);
    }
    assert(left =~= right);
}

/// Two values below sixteen with the same hexadecimal digit are the same.
pub proof fn lemma_hex_digit_unique(left: int, right: int)
    requires
        0 <= left < 16,
        0 <= right < 16,
        hex_digit(left) == hex_digit(right),
    ensures
        left == right,
{
    assert(hex_digit(left) as int == if left < 10 {
        48 + left
    } else {
        87 + left
    });
    assert(hex_digit(right) as int == if right < 10 {
        48 + right
    } else {
        87 + right
    });
}

/// A length can be read back from the front of what begins with it.
pub proof fn lemma_encode_len_unique(left: nat, right: nat, after_left: Seq<u8>, after_right: Seq<u8>)
    requires
        left <= u64::MAX,
        right <= u64::MAX,
        encode_len(left) + after_left == encode_len(right) + after_right,
    ensures
        left == right,
        after_left == after_right,
{
    lemma_auto_spec_u64_to_from_le_bytes();
    let whole = encode_len(left) + after_left;
    assert(encode_len(left).len() == 8);
    assert(encode_len(right).len() == 8);
    assert(whole.subrange(0, 8) =~= encode_len(left));
    assert(whole.subrange(0, 8) =~= encode_len(right));
    assert(whole.subrange(8, whole.len() as int) =~= after_left);
    assert(whole.subrange(8, whole.len() as int) =~= after_right);
    assert(left as u64 == right as u64);
}

/// A text can be read back from the front of what begins with it.
pub proof fn lemma_encode_text_unique(
    left: Seq<char>,
    right: Seq<char>,
    after_left: Seq<u8>,
    after_right: Seq<u8>,
)
    requires
        text_fits(left),
        text_fits(right),
        encode_text(left) + after_left == encode_text(right) + after_right,
    ensures
        left == right,
        after_left == after_right,
{
    let left_bytes = encode_utf8(left);
    let right_bytes = encode_utf8(right);
    assert(encode_text(left) + after_left =~= encode_len(left_bytes.len()) + (left_bytes
        + after_left));
    assert(encode_text(right) + after_right =~= encode_len(right_bytes.len()) + (right_bytes
        + after_right));
    lemma_encode_len_unique(
        left_bytes.len(),
        right_bytes.len(),
        left_bytes + after_left,
        right_bytes + after_right,
    );
    let rest = left_bytes + after_left;
    let n = left_bytes.len() as int;
    assert(rest.subrange(0, n) =~= left_bytes);
    assert(rest.subrange(0, n) =~= right_bytes);
    assert(rest.subrange(n, rest.len() as int) =~= after_left);
    assert(rest.subrange(n, rest.len() as int) =~= after_right);
    encode_utf8_decode_utf8(left);
    encode_utf8_decode_utf8(right);
}

/// Texts can be read back from the front of what begins with them, once
/// their number is known.
pub proof fn lemma_encode_texts_unique(
    left: Seq<Seq<char>>,
    right: Seq<Seq<char>>,
    after_left: Seq<u8>,
    after_right: Seq<u8>,
)
    requires
        texts_fit(left),
        texts_fit(right),
        left.len() == right.len(),
        encode_texts(left) + after_left == encode_texts(right) + after_right,
    ensures
        left == right,
        after_left == after_right,
    decreases left.len(),
{
    if left.len() == 0 {
        assert(encode_texts(left) + after_left =~= after_left);
        assert(encode_texts(right) + after_right =~= after_right);
        assert(left =~= right);
    } else {
        let left_rest = left.drop_first();
        let right_rest = right.drop_first();
        assert(encode_texts(left) + after_left =~= encode_text(left.first()) + (encode_texts(
            left_rest,
        ) + after_left));
        assert(encode_texts(right) + after_right =~= encode_text(right.first()) + (encode_texts(
            right_rest,
        ) + after_right));
        assert(text_fits(left[0]));
        assert(text_fits(right[0]));
        lemma_encode_text_unique(
            left.first(),
            right.first(),
            encode_texts(left_rest) + after_left,
            encode_texts(right_rest) + after_right,
        );
        assert(texts_fit(left_rest)) by {
            assert forall|i: int| 0 <= i < left_rest.len() implies text_fits(
                #[trigger] left_rest[i],
            ) by {
                assert(left_rest[i] == left[i + 1]);
            }
        }
        assert(texts_fit(right_rest)) by {
            assert forall|i: int| 0 <= i < right_rest.len() implies text_fits(
                #[trigger] right_rest[i],
            ) by {
                assert(right_rest[i] == right[i + 1]);
            }
        }
        lemma_encode_texts_unique(left_rest, right_rest, after_left, after_right);
        assert(left =~= seq![left.first()] + left_rest);
        assert(right =~= seq![right.first()] + right_rest);
    }
}

/// A list of texts can be read back from the front of what begins with it.
pub proof fn lemma_encode_text_list_unique(
    left: Seq<Seq<char>>,
    right: Seq<Seq<char>>,
    after_left: Seq<u8>,
    after_right: Seq<u8>,
)
    requires
        texts_fit(left),
        texts_fit(right),
        encode_text_list(left) + after_left == encode_text_list(right) + after_right,
    ensures
        left == right,
        after_left == after_right,
{
    assert(encode_text_list(left) + after_left =~= encode_len(left.len()) + (encode_texts(left)
        + after_left));
    assert(encode_text_list(right) + after_right =~= encode_len(right.len()) + (encode_texts(
        right,
    ) + after_right));
    lemma_encode_len_unique(
        left.len(),
        right.len(),
        encode_texts(left) + after_left,
        encode_texts(right) + after_right,
    );
    lemma_encode_texts_unique(left, right, after_left, after_right);
}

/// An optional list of texts can be read back from the front of what
/// begins with it: an absent list is told from an empty one.
pub proof fn lemma_encode_optional_text_list_unique(
    left: Option<Seq<Seq<char>>>,
    right: Option<Seq<Seq<char>>>,
    after_left: Seq<u8>,
    after_right: Seq<u8>,
)
    requires
        optional_texts_fit(left),
        optional_texts_fit(right),
        encode_optional_text_list(left) + after_left == encode_optional_text_list(right)
            + after_right,
    ensures
        left == right,
        after_left == after_right,
{
    let left_whole = encode_optional_text_list(left) + after_left;
    let right_whole = encode_optional_text_list(right) + after_right;
    assert(left_whole[0] == if left is Some {
        1u8
    } else {
        0u8
    });
    assert(right_whole[0] == if right is Some {
        1u8
    } else {
        0u8
    });
    match (left, right) {
        (Some(left_texts), Some(right_texts)) => {
            assert(left_whole.subrange(1, left_whole.len() as int) =~= encode_text_list(
                left_texts,
            ) + after_left);
            assert(right_whole.subrange(1, right_whole.len() as int) =~= encode_text_list(
                right_texts,
            ) + after_right);
            lemma_encode_text_list_unique(left_texts, right_texts, after_left, after_right);
        },
        (None, None) => {
            assert(left_whole.subrange(1, left_whole.len() as int) =~= after_left);
            assert(right_whole.subrange(1, right_whole.len() as int) =~= after_right);
        },
        _ => {},
    }
}

/// Two counts with the same 32 bits are the same.
pub proof fn lemma_count_bits_unique(left: i32, right: i32)
    by (bit_vector)
    requires
        left as u32 == right as u32,
    ensures
        left == right,
{
}

/// An optional count can be read back from its encoding.
pub proof fn lemma_encode_optional_count_unique(left: Option<i32>, right: Option<i32>)
    requires
        encode_optional_count(left) == encode_optional_count(right),
    ensures
        left == right,
{
    lemma_auto_spec_u32_to_from_le_bytes();
    let left_whole = encode_optional_count(left);
    let right_whole = encode_optional_count(right);
    assert(left_whole[0] == if left is Some {
        1u8
    } else {
        0u8
    });
    assert(right_whole[0] == if right is Some {
        1u8
    } else {
        0u8
    });
    match (left, right) {
        (Some(left_count), Some(right_count)) => {
            assert(left_whole.subrange(1, 5) =~= spec_u32_to_le_bytes(left_count as u32));
            assert(right_whole.subrange(1, 5) =~= spec_u32_to_le_bytes(right_count as u32));
            lemma_count_bits_unique(left_count, right_count);
        },
        _ => {},
    }
}

impl RepositoryView {
    /// The encoding of the tracked fields.
    pub open spec fn encoding(self) -> Seq<u8> {
        repository_encoding(self.topics, self.languages, self.stars)
    }

    /// Whether the tracked fields have the sizes that an encoding can hold.
    pub open spec fn fits(self) -> bool {
        optional_texts_fit(self.topics) && optional_texts_fit(self.languages)
    }
}

impl IssueView {
    /// The encoding of the tracked fields.
    pub open spec fn encoding(self) -> Seq<u8> {
        issue_encoding(self.title, self.labels)
    }

    /// Whether the tracked fields have the sizes that an encoding can hold.
    pub open spec fn fits(self) -> bool {
        text_fits(self.title) && texts_fit(self.labels)
    }
}

/// Two repositories with the same encoding have the same tracked fields:
/// the encoding keeps the fields' order apart, and an absent value from an
/// empty one.
pub proof fn lemma_repository_encoding_unique(left: RepositoryView, right: RepositoryView)
    requires
        left.fits(),
        right.fits(),
        left.encoding() == right.encoding(),
    ensures
        left.topics == right.topics,
        left.languages == right.languages,
        left.stars == right.stars,
{
    let left_tail = encode_optional_text_list(left.languages) + encode_optional_count(left.stars);
    let right_tail = encode_optional_text_list(right.languages) + encode_optional_count(
        right.stars,
    );
    assert(left.encoding() =~= encode_optional_text_list(left.topics) + left_tail);
    assert(right.encoding() =~= encode_optional_text_list(right.topics) + right_tail);
    lemma_encode_optional_text_list_unique(left.topics, right.topics, left_tail, right_tail);
    lemma_encode_optional_text_list_unique(
        left.languages,
        right.languages,
        encode_optional_count(left.stars),
        encode_optional_count(right.stars),
    );
    lemma_encode_optional_count_unique(left.stars, right.stars);
}

/// Two issues with the same encoding have the same tracked fields.
pub proof fn lemma_issue_encoding_unique(left: IssueView, right: IssueView)
    requires
        left.fits(),
        right.fits(),
        left.encoding() == right.encoding(),
    ensures
        left.title == right.title,
        left.labels == right.labels,
{
    lemma_encode_text_unique(
        left.title,
        right.title,
        encode_text_list(left.labels),
        encode_text_list(right.labels),
    );
    let none = Seq::<u8>::empty();
    assert(encode_text_list(left.labels) + none =~= encode_text_list(left.labels));
    assert(encode_text_list(right.labels) + none =~= encode_text_list(right.labels));
    lemma_encode_text_list_unique(left.labels, right.labels, none, none);
}

/// Digest stability, for repositories.  The fingerprint depends on the
/// tracked fields alone: two repositories with the same topics, languages and
/// stars have the same fingerprint.  And a change of any tracked field
/// changes the fingerprint, unless SHA-256 gives the two encodings one hash.
pub proof fn lemma_repository_fingerprint(left: RepositoryView, right: RepositoryView)
    requires
        left.fits(),
        right.fits(),
    ensures
        left.topics == right.topics && left.languages == right.languages && left.stars
            == right.stars ==> left.fingerprint() == right.fingerprint(),
        left.fingerprint() == right.fingerprint() ==> (left.topics == right.topics
            && left.languages == right.languages && left.stars == right.stars) || sha256_collides(
            left.encoding(),
            right.encoding(),
        ),
{
    if left.fingerprint() == right.fingerprint() {
        lemma_hex_lower_unique(sha256(left.encoding()), sha256(right.encoding()));
        if left.encoding() == right.encoding() {
            lemma_repository_encoding_unique(left, right);
        }
    }
}

/// Digest stability, for issues.  The fingerprint depends on the title and
/// the labels alone, and a change of either changes the fingerprint, unless
/// SHA-256 gives the two encodings one hash.
pub proof fn lemma_issue_fingerprint(left: IssueView, right: IssueView)
    requires
        left.fits(),
        right.fits(),
    ensures
        left.title == right.title && left.labels == right.labels ==> left.fingerprint()
            == right.fingerprint(),
        left.fingerprint() == right.fingerprint() ==> (left.title == right.title && left.labels
            == right.labels) || sha256_collides(left.encoding(), right.encoding()),
{
    if left.fingerprint() == right.fingerprint() {
        lemma_hex_lower_unique(sha256(left.encoding()), sha256(right.encoding()));
        if left.encoding() == right.encoding() {
            lemma_issue_encoding_unique(left, right);
        }
    }
}

} // verus!
