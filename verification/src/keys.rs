//! Keypairs, and the trial of one keypair.

use vstd::prelude::*;
use vstd::utf8::encode_utf8;

use crate::encoding::{
    ascii_text, base64_of, encode_standard, law_key_text_injective, law_key_text_shape,
    lemma_encoding_is_ascii, KEY_BYTES, KEY_TEXT_LEN, PADDING,
};
use crate::pattern::{occurs, Pattern, PatternKind, SearchPattern};
use crate::text::{lower, lowered};

verus! {

/// The public key that `x25519_dalek::PublicKey::from` computes for a private
/// key.
pub uninterp spec fn x25519_public(private: Seq<u8>) -> Seq<u8>;

/// Calls `x25519_dalek::PublicKey::from` on the `StaticSecret` of the given
/// bytes.
///
/// Claims that the public key depends on the bytes of the private key alone.
#[verifier::external_body]
pub(crate) fn derive_public(private: &[u8; 32]) -> (public: [u8; 32])
    ensures
        public@ == x25519_public(private@),
{
    x25519_dalek::PublicKey::from(&x25519_dalek::StaticSecret::from(*private)).to_bytes()
}

/// Calls `x25519_dalek::StaticSecret::random`.
///
/// The bytes come from the operating system's generator, so nothing is claimed
/// of them. The call panics where that generator fails.
#[verifier::external_body]
pub(crate) fn random_private() -> (private: [u8; 32]) {
    x25519_dalek::StaticSecret::random().to_bytes()
}

/// A keypair as texts.
pub open spec fn texts(pair: (String, String)) -> (Seq<char>, Seq<char>) {
    (pair.0@, pair.1@)
}

/// A keypair as texts, if there is one.
pub open spec fn optional_texts(pair: Option<(String, String)>) -> Option<(Seq<char>, Seq<char>)> {
    match pair {
        Some(pair) => Some(texts(pair)),
        None => None,
    }
}

/// The text of a key.
pub open spec fn key_text(key: Seq<u8>) -> Seq<char> {
    ascii_text(base64_of(key))
}

/// What the trial of a keypair gives: the texts of both keys where the text of
/// the public key matches.
pub open spec fn outcome(
    pattern: Pattern,
    start: int,
    end: int,
    private: Seq<u8>,
    public: Seq<u8>,
) -> Option<(Seq<char>, Seq<char>)> {
    if pattern.matches(base64_of(public), start, end) {
        Some((key_text(private), key_text(public)))
    } else {
        None
    }
}

/// What the trial of a private key gives.
pub open spec fn trial_outcome(pattern: Pattern, start: int, end: int, private: Seq<u8>) -> Option<
    (Seq<char>, Seq<char>),
> {
    outcome(pattern, start, end, private, x25519_public(private))
}

/// The pattern that searches for a text without regard to case.
pub open spec fn literal_pattern(text: Seq<char>) -> Pattern {
    Pattern {
        kind: PatternKind::Literal,
        source: text,
        bytes: lowered(encode_utf8(text)),
        regex: None,
        case_sensitive: false,
    }
}

/// Encodes a keypair and returns it when its public key matches `pattern`.
pub fn try_keypair(
    pattern: &SearchPattern,
    start: usize,
    end: usize,
    private: &[u8; 32],
    public: &[u8; 32],
) -> (result: Option<(String, String)>)
    ensures
        optional_texts(result) == outcome(
            pattern@,
            start as int,
            end as int,
            private@,
            public@,
        ),
        result is Some <==> pattern@.matches(base64_of(public@), start as int, end as int),
        result matches Some(pair) ==> {
            &&& pair.0@ == ascii_text(base64_of(private@))
            &&& pair.1@ == ascii_text(base64_of(public@))
        },
{
    let public_b64 = encode_standard(public.as_slice());
    proof {
        lemma_encoding_is_ascii(public@);
        law_key_text_shape(public@);
    }
    if pattern.is_match(public_b64.as_str().as_bytes(), start, end) {
        let private_b64 = encode_standard(private.as_slice());
        Some((private_b64, public_b64))
    } else {
        None
    }
}

/// Returns the keypair of a private key when its public key matches `pattern`.
pub fn try_private_key(
    pattern: &SearchPattern,
    start: usize,
    end: usize,
    private: &[u8; 32],
) -> (result: Option<(String, String)>)
    ensures
        x25519_public(private@).len() == KEY_BYTES,
        optional_texts(result) == trial_outcome(pattern@, start as int, end as int, private@),
        result is Some <==> pattern@.matches(
            base64_of(x25519_public(private@)),
            start as int,
            end as int,
        ),
        result matches Some(pair) ==> {
            &&& pair.0@ == ascii_text(base64_of(private@))
            &&& pair.1@ == ascii_text(base64_of(x25519_public(private@)))
        },
{
    let public = derive_public(private);
    try_keypair(pattern, start, end, private, &public)
}

/// Generates one keypair and returns it when its public key matches `pattern`.
pub fn trial_pattern(pattern: &SearchPattern, start: usize, end: usize) -> (result: Option<
    (String, String),
>)
    ensures
        exists|private: Seq<u8>|
            private.len() == KEY_BYTES && x25519_public(private).len() == KEY_BYTES
                && optional_texts(result) == #[trigger] trial_outcome(
                pattern@,
                start as int,
                end as int,
                private,
            ) && (result is Some <==> pattern@.matches(
                base64_of(x25519_public(private)),
                start as int,
                end as int,
            )) && (result matches Some(pair) ==> pair.0@ == ascii_text(base64_of(private))
                && pair.1@ == ascii_text(base64_of(x25519_public(private)))),
{
    let private = random_private();
    try_private_key(pattern, start, end, &private)
}

/// Generates one keypair and returns it when its public key matches `prefix`.
///
/// Matching is performed against `public_key[start..end]` after that range and
/// prefix are converted to ASCII lowercase. A match returns
/// `(private_key, public_key)`, both Base64 encoded.
pub fn trial(prefix: &str, start: usize, end: usize) -> (result: Option<(String, String)>)
    requires
        start <= end <= KEY_TEXT_LEN,
    ensures
        exists|private: Seq<u8>|
            private.len() == KEY_BYTES && x25519_public(private).len() == KEY_BYTES
                && optional_texts(result) == #[trigger] trial_outcome(
                literal_pattern(prefix@),
                start as int,
                end as int,
                private,
            ) && (result is Some <==> literal_pattern(prefix@).matches(
                base64_of(x25519_public(private)),
                start as int,
                end as int,
            )) && (result matches Some(pair) ==> pair.0@ == ascii_text(base64_of(private))
                && pair.1@ == ascii_text(base64_of(x25519_public(private)))),
{
    match SearchPattern::new(prefix, PatternKind::Literal, false) {
        Ok(pattern) => {
            assert(pattern@ =~= literal_pattern(prefix@));
            trial_pattern(&pattern, start, end)
        },
        Err(_) => None,
    }
}

/// A trial finds a keypair exactly if the text of its public key matches, and
/// what it finds are the texts of the private key and of the public key, in this
/// order, for every kind of pattern and every range.
pub proof fn law_found_pair_is_the_keypair(
    pattern: Pattern,
    start: int,
    end: int,
    private: Seq<u8>,
)
    ensures
        trial_outcome(pattern, start, end, private) is Some <==> pattern.matches(
            base64_of(x25519_public(private)),
            start,
            end,
        ),
        trial_outcome(pattern, start, end, private) matches Some((private_text, public_text))
            ==> private_text == ascii_text(base64_of(private)) && public_text == ascii_text(
            base64_of(x25519_public(private)),
        ),
{
}

/// The text of a key is its Base64 encoding, and a pair is read as its two texts.
pub proof fn law_texts(key: Seq<u8>, pair: (String, String))
    ensures
        key_text(key) == ascii_text(base64_of(key)),
        optional_texts(Some(pair)) == Some((pair.0@, pair.1@)),
        optional_texts(None) is None,
        KEY_BYTES == 32,
        KEY_TEXT_LEN == 44,
{
}

/// Different private keys give different private texts: what a trial finds
/// tells which key was drawn, for every kind of pattern and every range.
pub proof fn law_found_text_tells_the_key(
    pattern: Pattern,
    start: int,
    end: int,
    one: Seq<u8>,
    other: Seq<u8>,
)
    requires
        one.len() == KEY_BYTES,
        other.len() == KEY_BYTES,
        trial_outcome(pattern, start, end, one) is Some,
        trial_outcome(pattern, start, end, one) == trial_outcome(pattern, start, end, other),
    ensures
        one == other,
{
    let one_text = ascii_text(base64_of(one));
    let other_text = ascii_text(base64_of(other));
    assert(one_text == other_text);
    lemma_encoding_is_ascii(one);
    lemma_encoding_is_ascii(other);
    law_key_text_injective(one, other);
}

/// A search for a prefix is a search for a literal of its text in which the case
/// of letters is of no account.
pub proof fn law_prefix_pattern(text: Seq<char>)
    ensures
        literal_pattern(text).wf(),
        literal_pattern(text).kind is Literal,
        literal_pattern(text).source == text,
        !literal_pattern(text).case_sensitive,
{
}

/// The keys that a trial returns are 44 characters long, and the text of the
/// public one matches the pattern within the range.
pub proof fn law_found_keys_match(
    pattern: Pattern,
    start: int,
    end: int,
    private: Seq<u8>,
    public: Seq<u8>,
)
    requires
        private.len() == KEY_BYTES,
        public.len() == KEY_BYTES,
    ensures
        outcome(pattern, start, end, private, public) matches Some((private_text, public_text))
            ==> {
            &&& private_text.len() == KEY_TEXT_LEN
            &&& public_text.len() == KEY_TEXT_LEN
            &&& pattern.matches(encode_utf8(public_text), start, end)
        },
{
    law_key_text_shape(private);
    law_key_text_shape(public);
    lemma_encoding_is_ascii(public);
}

/// A trial over a range that does not lie within the 44 characters of a key
/// finds nothing.
pub proof fn law_no_key_outside_its_text(
    pattern: Pattern,
    start: int,
    end: int,
    private: Seq<u8>,
    public: Seq<u8>,
)
    requires
        public.len() == KEY_BYTES,
        start > end || end > KEY_TEXT_LEN,
    ensures
        outcome(pattern, start, end, private, public) is None,
{
    law_key_text_shape(public);
}

/// A search for the padding character finds every key where the range has the
/// last character, and none where it has not.
pub proof fn law_padding_is_last(
    text: Seq<char>,
    start: int,
    end: int,
    private: Seq<u8>,
    public: Seq<u8>,
)
    requires
        encode_utf8(text) == seq![PADDING],
        public.len() == KEY_BYTES,
        0 <= start <= end <= KEY_TEXT_LEN,
    ensures
        outcome(literal_pattern(text), start, end, private, public) is Some <==> start <= 43
            && end == 44,
{
    let code = base64_of(public);
    let range = code.subrange(start, end);
    let hay = lowered(range);
    let needle = lowered(encode_utf8(text));
    law_key_text_shape(public);
    assert(needle =~= seq![PADDING]);
    if occurs(hay, needle) {
        let i = choose|i: int|
            0 <= i && i + needle.len() <= hay.len() && #[trigger] hay.subrange(i, i + needle.len())
                == needle;
        assert(hay.subrange(i, i + 1)[0] == needle[0]);
        assert(lower(code[start + i]) == PADDING);
        assert(code[start + i] == PADDING);
    }
    if start <= 43 && end == 44 {
        let i = 43 - start;
        assert(hay[i] == lower(code[43]));
        assert(hay.subrange(i, i + 1) =~= needle);
        assert(hay.subrange(i, i + needle.len()) == needle);
    }
}

/// Where a search for a text finds a keypair, the text stands in the public key
/// within the range, up to the case of ASCII letters.
pub proof fn law_found_text_stands_in_key(
    text: Seq<char>,
    start: int,
    end: int,
    private: Seq<u8>,
    public: Seq<u8>,
) -> (at: int)
    requires
        0 <= start,
        outcome(literal_pattern(text), start, end, private, public) is Some,
    ensures
        start <= at,
        at + encode_utf8(text).len() <= end <= base64_of(public).len(),
        lowered(base64_of(public).subrange(at, at + encode_utf8(text).len() as int)) == lowered(
            encode_utf8(text),
        ),
{
    let needle = lowered(encode_utf8(text));
    let n = needle.len() as int;
    let code = base64_of(public);
    let range = code.subrange(start, end);
    let hay = lowered(range);
    assert(occurs(hay, needle));
    let i = choose|i: int|
        0 <= i && i + needle.len() <= hay.len() && #[trigger] hay.subrange(i, i + needle.len())
            == needle;
    assert(lowered(code.subrange(start + i, start + i + n)) =~= hay.subrange(i, i + n));
    start + i
}

} // verus!
