//! Glob matching with `*` (zero or more bytes) and `?` (one byte).

use vstd::prelude::*;

verus! {

/// The byte `*`.
pub const STAR: u8 = 42;

/// The byte `?`.
pub const QUESTION: u8 = 63;

/// Whether a glob denotes exactly `text`.
pub open spec fn glob_denotes(text: Seq<u8>, pattern: Seq<u8>) -> bool
    decreases pattern.len(),
{
    if pattern.len() == 0 {
        text.len() == 0
    } else if pattern[0] == STAR {
        exists|k: int| 0 <= k <= text.len() && glob_denotes(#[trigger] text.skip(k), pattern.skip(1))
    } else {
        &&& text.len() > 0
        &&& pattern[0] == QUESTION || pattern[0] == text[0]
        &&& glob_denotes(text.skip(1), pattern.skip(1))
    }
}

/// Whether a glob denotes some prefix of `text`.
pub open spec fn glob_begins(text: Seq<u8>, pattern: Seq<u8>) -> bool {
    exists|n: int| 0 <= n <= text.len() && #[trigger] glob_denotes(text.take(n), pattern)
}

/// Whether a glob denotes some part of `text`.
pub open spec fn glob_occurs(text: Seq<u8>, pattern: Seq<u8>) -> bool {
    exists|i: int, j: int|
        0 <= i <= j <= text.len() && #[trigger] glob_denotes(text.subrange(i, j), pattern)
}

/// Whether the glob behind `j` denotes a prefix of the text behind `i`.
spec fn begins_at(text: Seq<u8>, pattern: Seq<u8>, i: int, j: int) -> bool {
    glob_begins(text.skip(i), pattern.skip(j))
}

/// Whether the glob behind `j` denotes a part of the text that begins later
/// than `i`.
spec fn begins_after(text: Seq<u8>, pattern: Seq<u8>, i: int, j: int) -> bool {
    exists|k: int| i < k <= text.len() && #[trigger] begins_at(text, pattern, k, j)
}

proof fn lemma_begins_empty(text: Seq<u8>, pattern: Seq<u8>)
    requires
        pattern.len() == 0,
    ensures
        glob_begins(text, pattern),
{
    assert(glob_denotes(text.take(0), pattern));
}

proof fn lemma_begins_star(text: Seq<u8>, pattern: Seq<u8>)
    requires
        pattern.len() > 0,
        pattern[0] == STAR,
    ensures
        glob_begins(text, pattern) <==> exists|k: int|
            0 <= k <= text.len() && #[trigger] glob_begins(text.skip(k), pattern.skip(1)),
{
    let rest = pattern.skip(1);
    if glob_begins(text, pattern) {
        let n = choose|n: int|
            0 <= n <= text.len() && #[trigger] glob_denotes(text.take(n), pattern);
        let part = text.take(n);
        let k = choose|k: int| 0 <= k <= part.len() && glob_denotes(#[trigger] part.skip(k), rest);
        assert(part.skip(k) =~= text.skip(k).take(n - k));
        assert(glob_begins(text.skip(k), rest));
    }
    if exists|k: int| 0 <= k <= text.len() && #[trigger] glob_begins(text.skip(k), rest) {
        let k = choose|k: int| 0 <= k <= text.len() && #[trigger] glob_begins(text.skip(k), rest);
        let n = choose|n: int|
            0 <= n <= text.skip(k).len() && #[trigger] glob_denotes(text.skip(k).take(n), rest);
        let part = text.take(k + n);
        assert(part.skip(k) =~= text.skip(k).take(n));
        assert(glob_denotes(part, pattern));
    }
}

proof fn lemma_begins_single(text: Seq<u8>, pattern: Seq<u8>)
    requires
        pattern.len() > 0,
        pattern[0] != STAR,
    ensures
        glob_begins(text, pattern) <==> {
            &&& text.len() > 0
            &&& pattern[0] == QUESTION || pattern[0] == text[0]
            &&& glob_begins(text.skip(1), pattern.skip(1))
        },
{
    let rest = pattern.skip(1);
    if glob_begins(text, pattern) {
        let n = choose|n: int|
            0 <= n <= text.len() && #[trigger] glob_denotes(text.take(n), pattern);
        let part = text.take(n);
        assert(part.len() > 0 && glob_denotes(part.skip(1), rest));
        assert(part[0] == text[0]);
        assert(part.skip(1) =~= text.skip(1).take(n - 1));
    }
    if text.len() > 0 && (pattern[0] == QUESTION || pattern[0] == text[0]) && glob_begins(
        text.skip(1),
        rest,
    ) {
        let n = choose|n: int|
            0 <= n <= text.skip(1).len() && #[trigger] glob_denotes(text.skip(1).take(n), rest);
        assert(text.take(n + 1).skip(1) =~= text.skip(1).take(n));
        assert(glob_denotes(text.take(n + 1), pattern));
    }
}

/// The three ways in which a match can go on.
proof fn lemma_begins_at(text: Seq<u8>, pattern: Seq<u8>, i: int, j: int)
    requires
        0 <= i <= text.len(),
        0 <= j <= pattern.len(),
    ensures
        j == pattern.len() ==> begins_at(text, pattern, i, j),
        j < pattern.len() && pattern[j] == STAR ==> (begins_at(text, pattern, i, j) <==> (begins_at(
            text,
            pattern,
            i,
            j + 1,
        ) || begins_after(text, pattern, i, j + 1))),
        j < pattern.len() && pattern[j] != STAR ==> (begins_at(text, pattern, i, j) <==> {
            &&& i < text.len()
            &&& pattern[j] == QUESTION || pattern[j] == text[i]
            &&& begins_at(text, pattern, i + 1, j + 1)
        }),
{
    let t = text.skip(i);
    let p = pattern.skip(j);
    if j == pattern.len() {
        lemma_begins_empty(t, p);
    } else {
        assert(p[0] == pattern[j]);
        assert(p.skip(1) =~= pattern.skip(j + 1));
        if pattern[j] == STAR {
            lemma_begins_star(t, p);
            if begins_at(text, pattern, i, j) {
                let k = choose|k: int|
                    0 <= k <= t.len() && #[trigger] glob_begins(t.skip(k), p.skip(1));
                assert(t.skip(k) =~= text.skip(i + k));
                assert(begins_at(text, pattern, i + k, j + 1));
            }
            if begins_at(text, pattern, i, j + 1) {
                assert(t.skip(0) =~= t);
                assert(glob_begins(t.skip(0), p.skip(1)));
            }
            if begins_after(text, pattern, i, j + 1) {
                let k = choose|k: int|
                    i < k <= text.len() && #[trigger] begins_at(text, pattern, k, j + 1);
                assert(t.skip(k - i) =~= text.skip(k));
                assert(glob_begins(t.skip(k - i), p.skip(1)));
            }
        } else {
            lemma_begins_single(t, p);
            if i < text.len() {
                assert(t[0] == text[i]);
                assert(t.skip(1) =~= text.skip(i + 1));
            }
        }
    }
}

/// A stretch of the glob without `*` takes as many bytes as it has.
proof fn lemma_stretch(text: Seq<u8>, pattern: Seq<u8>, i: int, j: int, end: int)
    requires
        0 <= i <= text.len(),
        0 <= j <= end <= pattern.len(),
        forall|m: int| j <= m < end ==> #[trigger] pattern[m] != STAR,
        begins_at(text, pattern, i, j),
    ensures
        i + (end - j) <= text.len(),
        begins_at(text, pattern, i + (end - j), end),
    decreases end - j,
{
    if j < end {
        lemma_begins_at(text, pattern, i, j);
        lemma_stretch(text, pattern, i + 1, j + 1, end);
    }
}

/// Tests whether `pattern` denotes some prefix of `text`.
pub fn glob_matches_at(text: &[u8], pattern: &[u8]) -> (result: bool)
    ensures
        result == glob_begins(text@, pattern@),
{
    let mut text_index: usize = 0;
    let mut pattern_index: usize = 0;
    let mut star_index: Option<usize> = None;
    let mut star_text_index: usize = 0;
    let ghost goal = glob_begins(text@, pattern@);
    proof {
        assert(text@.skip(0) =~= text@);
        assert(pattern@.skip(0) =~= pattern@);
    }
    while text_index < text.len()
        invariant
            text_index <= text@.len(),
            pattern_index <= pattern@.len(),
            goal == glob_begins(text@, pattern@),
            star_index is None ==> goal == begins_at(
                text@,
                pattern@,
                text_index as int,
                pattern_index as int,
            ),
            star_index matches Some(star) ==> {
                &&& star < pattern_index
                &&& pattern@[star as int] == STAR
                &&& text_index == star_text_index + (pattern_index - star - 1)
                &&& forall|m: int| star < m < pattern_index ==> #[trigger] pattern@[m] != STAR
                &&& goal == (begins_at(text@, pattern@, text_index as int, pattern_index as int)
                    || begins_after(text@, pattern@, star_text_index as int, star as int + 1))
            },
        decreases
                pattern@.len() - (match star_index {
                    Some(star) => star as int,
                    None => -1,
                }),
                text@.len() - star_text_index,
                pattern@.len() - pattern_index,
    {
        proof {
            lemma_begins_at(text@, pattern@, text_index as int, pattern_index as int);
        }
        if pattern_index == pattern.len() {
            return true;
        }
        if pattern[pattern_index] != STAR && (pattern[pattern_index] == QUESTION
            || pattern[pattern_index] == text[text_index]) {
            pattern_index += 1;
            text_index += 1;
        } else if pattern[pattern_index] == STAR {
            proof {
                if let Some(star) = star_index {
                    if begins_after(text@, pattern@, star_text_index as int, star as int + 1) {
                        let k = choose|k: int|
                            star_text_index < k <= text@.len() && #[trigger] begins_at(
                                text@,
                                pattern@,
                                k,
                                star as int + 1,
                            );
                        lemma_stretch(text@, pattern@, k, star as int + 1, pattern_index as int);
                        let m = k + (pattern_index - star - 1);
                        lemma_begins_at(text@, pattern@, m, pattern_index as int);
                        if begins_after(text@, pattern@, m, pattern_index as int + 1) {
                            let n = choose|n: int|
                                m < n <= text@.len() && #[trigger] begins_at(
                                    text@,
                                    pattern@,
                                    n,
                                    pattern_index as int + 1,
                                );
                            assert(text_index < n);
                        }
                    }
                }
            }
            star_index = Some(pattern_index);
            pattern_index += 1;
            star_text_index = text_index;
        } else if let Some(star) = star_index {
            proof {
                let from = star_text_index as int;
                let j = star as int + 1;
                if begins_after(text@, pattern@, from, j) {
                    let k = choose|k: int|
                        from < k <= text@.len() && #[trigger] begins_at(text@, pattern@, k, j);
                    assert(k == from + 1 || from + 1 < k);
                }
                if begins_after(text@, pattern@, from + 1, j) {
                    let k = choose|k: int|
                        from + 1 < k <= text@.len() && #[trigger] begins_at(text@, pattern@, k, j);
                    assert(from < k);
                }
            }
            pattern_index = star + 1;
            star_text_index += 1;
            text_index = star_text_index;
        } else {
            return false;
        }
    }
    proof {
        if let Some(star) = star_index {
            if begins_after(text@, pattern@, star_text_index as int, star as int + 1) {
                let k = choose|k: int|
                    star_text_index < k <= text@.len() && #[trigger] begins_at(
                        text@,
                        pattern@,
                        k,
                        star as int + 1,
                    );
                lemma_stretch(text@, pattern@, k, star as int + 1, pattern_index as int);
            }
        }
        assert(goal == begins_at(text@, pattern@, text_index as int, pattern_index as int));
    }
    while pattern_index < pattern.len() && pattern[pattern_index] == STAR
        invariant
            text_index == text@.len(),
            pattern_index <= pattern@.len(),
            goal == begins_at(text@, pattern@, text_index as int, pattern_index as int),
        decreases pattern@.len() - pattern_index,
    {
        proof {
            lemma_begins_at(text@, pattern@, text_index as int, pattern_index as int);
        }
        pattern_index += 1;
    }
    proof {
        lemma_begins_at(text@, pattern@, text_index as int, pattern_index as int);
    }
    pattern_index == pattern.len()
}

/// Tests whether `pattern` denotes some part of `haystack`.
pub fn glob_matches(haystack: &[u8], pattern: &[u8]) -> (result: bool)
    ensures
        result == glob_occurs(haystack@, pattern@),
{
    let mut start: usize = 0;
    loop
        invariant
            start <= haystack@.len(),
            forall|i: int, j: int|
                0 <= i < start && i <= j <= haystack@.len() ==> !#[trigger] glob_denotes(
                    haystack@.subrange(i, j),
                    pattern@,
                ),
        decreases haystack@.len() - start,
    {
        let rest = vstd::slice::slice_subrange(haystack, start, haystack.len());
        assert(rest@ =~= haystack@.skip(start as int));
        if glob_matches_at(rest, pattern) {
            proof {
                let n = choose|n: int|
                    0 <= n <= rest@.len() && #[trigger] glob_denotes(rest@.take(n), pattern@);
                assert(rest@.take(n) =~= haystack@.subrange(start as int, start + n));
                assert(glob_denotes(haystack@.subrange(start as int, start + n), pattern@));
            }
            return true;
        }
        assert forall|j: int| start <= j <= haystack@.len() implies !#[trigger] glob_denotes(
            haystack@.subrange(start as int, j),
            pattern@,
        ) by {
            assert(rest@.take(j - start) =~= haystack@.subrange(start as int, j));
        }
        if start == haystack.len() {
            return false;
        }
        start += 1;
    }
}

} // verus!
