//! What a constructed pattern matches, in terms of its text and of the bytes of
//! the range.

use vstd::prelude::*;
use vstd::utf8::encode_utf8;

use crate::glob::{glob_denotes, QUESTION, STAR};
use crate::pattern::Pattern;
use crate::pattern_laws::law_plain_glob;
use crate::regex_engine::{built_regex, regex_matches};
use crate::text::{lower, lowered, normalized};

verus! {

/// Whether two bytes are equal, or the two cases of one ASCII letter.
pub open spec fn same_letter(one: u8, other: u8) -> bool {
    ||| one == other
    ||| 65 <= one <= 90 && other == one + 32
    ||| 65 <= other <= 90 && one == other + 32
}

/// Comparing keeps the length, and each byte but for the case of ASCII letters.
/// Where case matters it changes nothing.
pub proof fn law_normalized(one: Seq<u8>, other: Seq<u8>, case_sensitive: bool)
    ensures
        normalized(one, case_sensitive).len() == one.len(),
        normalized(one, true) == one,
        forall|i: int|
            0 <= i < one.len() ==> same_letter(one[i], #[trigger] normalized(one, case_sensitive)[i]),
        forall|i: int|
            0 <= i < one.len() ==> !(65 <= #[trigger] normalized(one, false)[i] <= 90),
        normalized(one, false) == normalized(other, false) <==> one.len() == other.len() && forall|
            i: int,
        |
            0 <= i < one.len() ==> same_letter(one[i], #[trigger] other[i]),
{
    let a = normalized(one, false);
    let b = normalized(other, false);
    assert forall|i: int| 0 <= i < one.len() implies !(65 <= #[trigger] a[i] <= 90) by {
        assert(a[i] == lower(one[i]));
    }
    if a == b {
        assert(a.len() == one.len() && b.len() == other.len());
        assert forall|i: int| 0 <= i < one.len() implies same_letter(one[i], #[trigger] other[i]) by {
            assert(a[i] == lower(one[i]));
            assert(b[i] == lower(other[i]));
        }
    }
    if one.len() == other.len() && forall|i: int|
        0 <= i < one.len() ==> same_letter(one[i], #[trigger] other[i]) {
        assert forall|i: int| 0 <= i < one.len() implies a[i] == b[i] by {
            assert(same_letter(one[i], other[i]));
            assert(a[i] == lower(one[i]));
            assert(b[i] == lower(other[i]));
        }
        assert(a =~= b);
    }
}

/// Bytes in small letters are bytes as they are compared where case does not
/// matter.
pub proof fn law_lowered(bytes: Seq<u8>)
    ensures
        lowered(bytes) == normalized(bytes, false),
{
}

/// The length of a pattern is that of its text in bytes.
pub proof fn law_pattern_len(pattern: Pattern)
    requires
        pattern.wf(),
    ensures
        pattern.bytes.len() == encode_utf8(pattern.source).len(),
{
}

/// A literal of any length matches in every range in which its text stands, up
/// to the case of ASCII letters unless case matters.
pub proof fn law_literal_is_found(
    pattern: Pattern,
    encoded: Seq<u8>,
    start: int,
    end: int,
    at: int,
)
    requires
        pattern.wf(),
        pattern.kind is Literal,
        0 <= start <= at,
        at + encode_utf8(pattern.source).len() <= end <= encoded.len(),
        forall|j: int|
            0 <= j < encode_utf8(pattern.source).len() ==> {
                let byte = #[trigger] encode_utf8(pattern.source)[j];
                byte == encoded[at + j] || (!pattern.case_sensitive && same_letter(
                    byte,
                    encoded[at + j],
                ))
            },
    ensures
        pattern.matches(encoded, start, end),
{
    let text = encode_utf8(pattern.source);
    let n = text.len() as int;
    let range = encoded.subrange(start, end);
    let hay = normalized(range, pattern.case_sensitive);
    let i = at - start;
    let part = hay.subrange(i, i + n);
    assert forall|j: int| 0 <= j < n implies part[j] == pattern.bytes[j] by {
        let byte = text[j];
        assert(byte == encoded[at + j] || (!pattern.case_sensitive && same_letter(
            byte,
            encoded[at + j],
        )));
        assert(range[i + j] == encoded[at + j]);
        if !pattern.case_sensitive {
            assert(hay[i + j] == lower(range[i + j]));
            assert(pattern.bytes[j] == lower(text[j]));
        }
    }
    assert(part =~= pattern.bytes);
    assert(hay.subrange(i, i + pattern.bytes.len()) == pattern.bytes);
}

/// Where a literal matches, its text stands in the range, up to the case of
/// ASCII letters unless case matters.
pub proof fn law_literal_stands(pattern: Pattern, encoded: Seq<u8>, start: int, end: int) -> (at:
    int)
    requires
        pattern.wf(),
        pattern.kind is Literal,
        0 <= start,
        pattern.matches(encoded, start, end),
    ensures
        start <= at,
        at + encode_utf8(pattern.source).len() <= end <= encoded.len(),
        forall|j: int|
            0 <= j < encode_utf8(pattern.source).len() ==> {
                let byte = #[trigger] encode_utf8(pattern.source)[j];
                byte == encoded[at + j] || (!pattern.case_sensitive && same_letter(
                    byte,
                    encoded[at + j],
                ))
            },
{
    let text = encode_utf8(pattern.source);
    let n = pattern.bytes.len() as int;
    let range = encoded.subrange(start, end);
    let hay = normalized(range, pattern.case_sensitive);
    let i = choose|i: int|
        0 <= i && i + pattern.bytes.len() <= hay.len() && #[trigger] hay.subrange(
            i,
            i + pattern.bytes.len(),
        ) == pattern.bytes;
    assert forall|j: int| 0 <= j < text.len() implies {
        let byte = #[trigger] text[j];
        byte == encoded[start + i + j] || (!pattern.case_sensitive && same_letter(
            byte,
            encoded[start + i + j],
        ))
    } by {
        assert(hay.subrange(i, i + n)[j] == pattern.bytes[j]);
        assert(range[i + j] == encoded[start + i + j]);
        if !pattern.case_sensitive {
            assert(hay[i + j] == lower(range[i + j]));
            assert(pattern.bytes[j] == lower(text[j]));
        }
    }
    start + i
}

/// A literal and a glob without wildcards of the same text and case behavior
/// match the same texts.
pub proof fn law_literal_as_glob(literal: Pattern, glob: Pattern, haystack: Seq<u8>)
    requires
        literal.wf(),
        glob.wf(),
        literal.kind is Literal,
        glob.kind is Glob,
        literal.source == glob.source,
        literal.case_sensitive == glob.case_sensitive,
        forall|i: int|
            0 <= i < encode_utf8(glob.source).len() ==> #[trigger] encode_utf8(glob.source)[i]
                != '*' as u8 && encode_utf8(glob.source)[i] != '?' as u8,
    ensures
        literal.matches_within(haystack) == glob.matches_within(haystack),
{
    let text = encode_utf8(glob.source);
    assert forall|i: int| 0 <= i < glob.bytes.len() implies #[trigger] glob.bytes[i] != STAR
        && glob.bytes[i] != QUESTION by {
        assert(text[i] != STAR && text[i] != QUESTION);
        if !glob.case_sensitive {
            assert(glob.bytes[i] == lower(text[i]));
        }
    }
    law_plain_glob(normalized(haystack, glob.case_sensitive), glob.bytes);
}

/// A glob matches in every range that has a part which the glob denotes, both
/// compared without regard to case unless case matters.
pub proof fn law_glob_is_found(
    pattern: Pattern,
    encoded: Seq<u8>,
    start: int,
    end: int,
    from: int,
    to: int,
)
    requires
        pattern.wf(),
        pattern.kind is Glob,
        0 <= start <= from <= to <= end <= encoded.len(),
        glob_denotes(
            normalized(encoded.subrange(from, to), pattern.case_sensitive),
            normalized(encode_utf8(pattern.source), pattern.case_sensitive),
        ),
    ensures
        pattern.matches(encoded, start, end),
{
    let range = encoded.subrange(start, end);
    let hay = normalized(range, pattern.case_sensitive);
    assert(normalized(encoded.subrange(from, to), pattern.case_sensitive) =~= hay.subrange(
        from - start,
        to - start,
    ));
    assert(glob_denotes(hay.subrange(from - start, to - start), pattern.bytes));
}

/// Where a glob matches, the range has a part which the glob denotes, both
/// compared without regard to case unless case matters.
pub proof fn law_glob_stands(pattern: Pattern, encoded: Seq<u8>, start: int, end: int) -> (part: (
    int,
    int,
))
    requires
        pattern.wf(),
        pattern.kind is Glob,
        0 <= start,
        pattern.matches(encoded, start, end),
    ensures
        start <= part.0 <= part.1 <= end <= encoded.len(),
        glob_denotes(
            normalized(encoded.subrange(part.0, part.1), pattern.case_sensitive),
            normalized(encode_utf8(pattern.source), pattern.case_sensitive),
        ),
{
    let range = encoded.subrange(start, end);
    let hay = normalized(range, pattern.case_sensitive);
    let (i, j) = choose|i: int, j: int|
        0 <= i <= j <= hay.len() && #[trigger] glob_denotes(hay.subrange(i, j), pattern.bytes);
    assert(normalized(encoded.subrange(start + i, start + j), pattern.case_sensitive)
        =~= hay.subrange(i, j));
    (start + i, start + j)
}

/// A regular expression matches in a valid range exactly if the engine finds it
/// in the bytes of the range, with the case behavior of the pattern.
pub proof fn law_regex_pattern(
    pattern: Pattern,
    regex: regex::bytes::Regex,
    encoded: Seq<u8>,
    start: int,
    end: int,
)
    requires
        pattern.wf(),
        pattern.kind is Regex,
        built_regex(pattern.source, !pattern.case_sensitive) == Ok::<
            regex::bytes::Regex,
            regex::Error,
        >(regex),
        0 <= start,
    ensures
        pattern.matches(encoded, start, end) <==> start <= end <= encoded.len() && regex_matches(
            regex,
            encoded.subrange(start, end),
        ),
{
}

} // verus!
