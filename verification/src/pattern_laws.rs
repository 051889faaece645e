//! Laws of matching.

use vstd::prelude::*;
use vstd::utf8::encode_utf8;

use crate::glob::{glob_denotes, glob_occurs, QUESTION, STAR};
use crate::pattern::{is_prepared, occurs, GpuPattern, Pattern};
use crate::regex_dfa::GpuRegexError;
use crate::text::{lower, lowered, normalized};

verus! {

/// A match depends on nothing but the bytes of the range: anchors and word
/// boundaries are relative to it, and what stands around it has no influence.
pub proof fn law_match_is_local(
    pattern: Pattern,
    one: Seq<u8>,
    other: Seq<u8>,
    start: int,
    end: int,
    shift: int,
)
    requires
        0 <= start <= end <= one.len(),
        0 <= start + shift <= end + shift <= other.len(),
        one.subrange(start, end) == other.subrange(start + shift, end + shift),
    ensures
        pattern.matches(one, start, end) == pattern.matches(other, start + shift, end + shift),
{
}

/// Matching within a range is matching the bytes of the range on their own.
pub proof fn law_match_of_slice(pattern: Pattern, encoded: Seq<u8>, start: int, end: int)
    requires
        0 <= start <= end <= encoded.len(),
    ensures
        pattern.matches(encoded, start, end) == pattern.matches(
            encoded.subrange(start, end),
            0,
            end - start,
        ),
{
    let slice = encoded.subrange(start, end);
    assert(slice.subrange(0, end - start) =~= slice);
}

/// An empty literal matches in every valid range.
pub proof fn law_empty_literal(pattern: Pattern, encoded: Seq<u8>, start: int, end: int)
    requires
        pattern.kind is Literal,
        pattern.bytes.len() == 0,
        0 <= start <= end <= encoded.len(),
    ensures
        pattern.matches(encoded, start, end),
{
    let hay = normalized(encoded.subrange(start, end), pattern.case_sensitive);
    assert(hay.subrange(0, 0) =~= pattern.bytes);
    assert(hay.subrange(0, 0 + pattern.bytes.len() as int) == pattern.bytes);
}

/// A range that is not within the text matches nothing.
pub proof fn law_invalid_range(pattern: Pattern, encoded: Seq<u8>, start: int, end: int)
    requires
        start > end || end > encoded.len(),
    ensures
        !pattern.matches(encoded, start, end),
{
}

/// Without case sensitivity, texts that differ in the case of ASCII letters
/// alone are matched alike by a literal or a glob.
pub proof fn law_haystack_case(pattern: Pattern, one: Seq<u8>, other: Seq<u8>)
    requires
        pattern.kind !is Regex,
        !pattern.case_sensitive,
        lowered(one) == lowered(other),
    ensures
        pattern.matches_within(one) == pattern.matches_within(other),
{
}

/// Without case sensitivity, literals or globs whose texts differ in the case
/// of ASCII letters alone match the same texts.
pub proof fn law_pattern_case(one: Pattern, other: Pattern, haystack: Seq<u8>)
    requires
        one.wf(),
        other.wf(),
        one.kind == other.kind,
        one.kind !is Regex,
        !one.case_sensitive,
        !other.case_sensitive,
        lowered(encode_utf8(one.source)) == lowered(encode_utf8(other.source)),
    ensures
        one.matches_within(haystack) == other.matches_within(haystack),
{
}

proof fn lemma_normalized_part(bytes: Seq<u8>, case_sensitive: bool, start: int, end: int)
    requires
        0 <= start <= end <= bytes.len(),
    ensures
        normalized(bytes.subrange(start, end), case_sensitive) == normalized(
            bytes,
            case_sensitive,
        ).subrange(start, end),
{
    assert(normalized(bytes.subrange(start, end), case_sensitive) =~= normalized(
        bytes,
        case_sensitive,
    ).subrange(start, end));
}

/// A literal or a glob that matches within a range matches within every wider
/// one.
pub proof fn law_wider_range(
    pattern: Pattern,
    encoded: Seq<u8>,
    start: int,
    end: int,
    wide_start: int,
    wide_end: int,
)
    requires
        pattern.kind !is Regex,
        0 <= wide_start <= start,
        end <= wide_end <= encoded.len(),
        pattern.matches(encoded, start, end),
    ensures
        pattern.matches(encoded, wide_start, wide_end),
{
    let wide = encoded.subrange(wide_start, wide_end);
    let from = start - wide_start;
    let to = end - wide_start;
    assert(encoded.subrange(start, end) =~= wide.subrange(from, to));
    lemma_normalized_part(wide, pattern.case_sensitive, from, to);
    let hay = normalized(wide, pattern.case_sensitive);
    let part = hay.subrange(from, to);
    if pattern.kind is Literal {
        let n = pattern.bytes.len();
        let i = choose|i: int|
            0 <= i && i + n <= part.len() && #[trigger] part.subrange(i, i + n) == pattern.bytes;
        assert(hay.subrange(from + i, from + i + n) =~= part.subrange(i, i + n));
    } else {
        let (i, j) = choose|i: int, j: int|
            0 <= i <= j <= part.len() && #[trigger] glob_denotes(
                part.subrange(i, j),
                pattern.bytes,
            );
        assert(hay.subrange(from + i, from + j) =~= part.subrange(i, j));
        assert(glob_denotes(hay.subrange(from + i, from + j), pattern.bytes));
    }
}

/// Whether a glob has no wildcard.
pub open spec fn is_plain(glob: Seq<u8>) -> bool {
    forall|i: int| 0 <= i < glob.len() ==> #[trigger] glob[i] != STAR && glob[i] != QUESTION
}

proof fn lemma_plain_glob(text: Seq<u8>, glob: Seq<u8>)
    requires
        is_plain(glob),
    ensures
        glob_denotes(text, glob) <==> text == glob,
    decreases glob.len(),
{
    if glob.len() == 0 {
        if text.len() == 0 {
            assert(text =~= glob);
        }
    } else {
        assert(glob[0] != STAR && glob[0] != QUESTION);
        let rest = glob.skip(1);
        assert forall|i: int| 0 <= i < rest.len() implies #[trigger] rest[i] != STAR && rest[i]
            != QUESTION by {
            assert(rest[i] == glob[i + 1]);
        }
        if text.len() > 0 {
            lemma_plain_glob(text.skip(1), rest);
            if text[0] == glob[0] && text.skip(1) == rest {
                assert(text =~= seq![text[0]] + text.skip(1));
                assert(glob =~= seq![glob[0]] + rest);
            }
        }
    }
}

/// A glob without wildcards matches what the same text matches as a literal.
pub proof fn law_plain_glob(haystack: Seq<u8>, glob: Seq<u8>)
    requires
        is_plain(glob),
    ensures
        glob_occurs(haystack, glob) == occurs(haystack, glob),
{
    if glob_occurs(haystack, glob) {
        let (i, j) = choose|i: int, j: int|
            0 <= i <= j <= haystack.len() && #[trigger] glob_denotes(haystack.subrange(i, j), glob);
        lemma_plain_glob(haystack.subrange(i, j), glob);
        assert(j == i + glob.len());
    }
    if occurs(haystack, glob) {
        let i = choose|i: int|
            0 <= i && i + glob.len() <= haystack.len() && #[trigger] haystack.subrange(
                i,
                i + glob.len(),
            ) == glob;
        lemma_plain_glob(haystack.subrange(i, i + glob.len()), glob);
        assert(glob_denotes(haystack.subrange(i, i + glob.len()), glob));
    }
}

proof fn lemma_lowered_glob(text: Seq<u8>, glob: Seq<u8>)
    requires
        glob_denotes(text, glob),
    ensures
        glob_denotes(lowered(text), lowered(glob)),
    decreases glob.len(),
{
    if glob.len() > 0 {
        assert(lowered(glob).skip(1) =~= lowered(glob.skip(1)));
        assert(lowered(glob)[0] == lower(glob[0]));
        if glob[0] == STAR {
            let k = choose|k: int|
                0 <= k <= text.len() && glob_denotes(#[trigger] text.skip(k), glob.skip(1));
            lemma_lowered_glob(text.skip(k), glob.skip(1));
            assert(lowered(text).skip(k) =~= lowered(text.skip(k)));
            assert(glob_denotes(lowered(text).skip(k), lowered(glob).skip(1)));
        } else {
            lemma_lowered_glob(text.skip(1), glob.skip(1));
            assert(lowered(text).skip(1) =~= lowered(text.skip(1)));
        }
    }
}

/// What a literal or a glob matches with its case kept, it also matches without
/// regard to case.
pub proof fn law_dropping_case(sensitive: Pattern, insensitive: Pattern, haystack: Seq<u8>)
    requires
        sensitive.wf(),
        insensitive.wf(),
        sensitive.kind == insensitive.kind,
        sensitive.kind !is Regex,
        sensitive.source == insensitive.source,
        sensitive.case_sensitive,
        !insensitive.case_sensitive,
        sensitive.matches_within(haystack),
    ensures
        insensitive.matches_within(haystack),
{
    let bytes = sensitive.bytes;
    let hay = lowered(haystack);
    if sensitive.kind is Literal {
        let n = bytes.len();
        let i = choose|i: int|
            0 <= i && i + n <= haystack.len() && #[trigger] haystack.subrange(i, i + n) == bytes;
        assert(hay.subrange(i, i + n) =~= lowered(bytes)) by {
            lemma_normalized_part(haystack, false, i, i + n);
        }
    } else {
        let (i, j) = choose|i: int, j: int|
            0 <= i <= j <= haystack.len() && #[trigger] glob_denotes(
                haystack.subrange(i, j),
                bytes,
            );
        lemma_lowered_glob(haystack.subrange(i, j), bytes);
        lemma_normalized_part(haystack, false, i, j);
        assert(glob_denotes(hay.subrange(i, j), lowered(bytes)));
    }
}

/// Literals and globs are always prepared for the CUDA matcher.
pub proof fn law_text_is_prepared(pattern: Pattern, result: Result<GpuPattern, GpuRegexError>)
    requires
        pattern.kind !is Regex,
        is_prepared(pattern, result),
    ensures
        result is Ok,
{
}

/// A glob matches a text exactly if it matches with `*` on both sides.
pub proof fn law_outer_stars(haystack: Seq<u8>, glob: Seq<u8>)
    ensures
        glob_occurs(haystack, seq![STAR] + glob + seq![STAR]) == glob_occurs(haystack, glob),
{
    let starred = seq![STAR] + glob + seq![STAR];
    let tail = glob + seq![STAR];
    assert(starred.skip(1) =~= tail);
    if glob_occurs(haystack, starred) {
        let (i, j) = choose|i: int, j: int|
            0 <= i <= j <= haystack.len() && #[trigger] glob_denotes(
                haystack.subrange(i, j),
                starred,
            );
        let text = haystack.subrange(i, j);
        let k = choose|k: int|
            0 <= k <= text.len() && glob_denotes(#[trigger] text.skip(k), starred.skip(1));
        let n = lemma_trailing_star(text.skip(k), glob);
        assert(text.skip(k).take(n) =~= haystack.subrange(i + k, i + k + n));
        assert(glob_denotes(haystack.subrange(i + k, i + k + n), glob));
    }
    if glob_occurs(haystack, glob) {
        let (i, j) = choose|i: int, j: int|
            0 <= i <= j <= haystack.len() && #[trigger] glob_denotes(haystack.subrange(i, j), glob);
        let text = haystack.subrange(i, j);
        lemma_empty_star(text, glob);
        assert(text.skip(0) =~= text);
        assert(glob_denotes(text.skip(0), starred.skip(1)));
        assert(glob_denotes(text, starred));
    }
}

/// What a glob with `*` behind it denotes begins with what the glob denotes.
proof fn lemma_trailing_star(text: Seq<u8>, glob: Seq<u8>) -> (n: int)
    requires
        glob_denotes(text, glob + seq![STAR]),
    ensures
        0 <= n <= text.len(),
        glob_denotes(text.take(n), glob),
    decreases glob.len(),
{
    let all = glob + seq![STAR];
    if glob.len() == 0 {
        0
    } else {
        let rest = glob.skip(1);
        assert(all.skip(1) =~= rest + seq![STAR]);
        assert(all[0] == glob[0]);
        if glob[0] == STAR {
            let k = choose|k: int|
                0 <= k <= text.len() && glob_denotes(#[trigger] text.skip(k), all.skip(1));
            let n = lemma_trailing_star(text.skip(k), rest);
            let part = text.take(k + n);
            assert(part.skip(k) =~= text.skip(k).take(n));
            assert(glob_denotes(part.skip(k), rest));
            k + n
        } else {
            let n = lemma_trailing_star(text.skip(1), rest);
            let part = text.take(n + 1);
            assert(part.skip(1) =~= text.skip(1).take(n));
            n + 1
        }
    }
}

/// What a glob denotes, it denotes with `*` behind it.
proof fn lemma_empty_star(text: Seq<u8>, glob: Seq<u8>)
    requires
        glob_denotes(text, glob),
    ensures
        glob_denotes(text, glob + seq![STAR]),
    decreases glob.len(),
{
    let all = glob + seq![STAR];
    if glob.len() == 0 {
        assert(all.skip(1) =~= Seq::<u8>::empty());
        assert(text.skip(0) =~= Seq::<u8>::empty());
        assert(glob_denotes(text.skip(0), all.skip(1)));
    } else {
        let rest = glob.skip(1);
        assert(all.skip(1) =~= rest + seq![STAR]);
        assert(all[0] == glob[0]);
        if glob[0] == STAR {
            let k = choose|k: int|
                0 <= k <= text.len() && glob_denotes(#[trigger] text.skip(k), rest);
            lemma_empty_star(text.skip(k), rest);
            assert(glob_denotes(text.skip(k), all.skip(1)));
        } else {
            lemma_empty_star(text.skip(1), rest);
        }
    }
}

} // verus!
