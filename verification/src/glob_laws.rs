//! What a glob denotes and where it is found, in terms of texts put together.

use vstd::prelude::*;

use crate::glob::{glob_begins, glob_denotes, glob_occurs, QUESTION, STAR};

verus! {

/// A glob of no characters denotes the empty text, `*` denotes every text, `?`
/// every single byte, and every other character itself.
pub proof fn law_glob_pieces(text: Seq<u8>, byte: u8)
    ensures
        STAR == '*' as u8,
        QUESTION == '?' as u8,
        glob_denotes(text, Seq::empty()) <==> text.len() == 0,
        glob_denotes(text, seq!['*' as u8]),
        glob_denotes(text, seq!['?' as u8]) <==> text.len() == 1,
        byte != '*' as u8 && byte != '?' as u8 ==> (glob_denotes(text, seq![byte]) <==> text
            == seq![byte]),
{
    let star = seq![42u8];
    let question = seq![63u8];
    let plain = seq![byte];
    assert(star.skip(1) =~= Seq::empty());
    assert(question.skip(1) =~= Seq::empty());
    assert(plain.skip(1) =~= Seq::empty());
    assert(glob_denotes(text.skip(text.len() as int), star.skip(1)));
    if text.len() > 0 {
        assert(glob_denotes(text.skip(1), Seq::<u8>::empty()) <==> text.skip(1).len() == 0);
        if text.len() == 1 && text[0] == byte {
            assert(text =~= plain);
        }
    }
}

/// Two globs one behind the other denote the texts that fall into a part of the
/// first and a part of the second.
pub proof fn law_glob_concat(text: Seq<u8>, first: Seq<u8>, second: Seq<u8>)
    ensures
        glob_denotes(text, first + second) <==> exists|k: int|
            0 <= k <= text.len() && glob_denotes(#[trigger] text.take(k), first) && glob_denotes(
                text.skip(k),
                second,
            ),
    decreases first.len(),
{
    let both = first + second;
    if first.len() == 0 {
        assert(both =~= second);
        assert(text.take(0) =~= Seq::empty());
        assert(text.skip(0) =~= text);
        if glob_denotes(text, both) {
            assert(glob_denotes(text.take(0), first));
        }
        assert forall|k: int|
            0 <= k <= text.len() && glob_denotes(#[trigger] text.take(k), first) && glob_denotes(
                text.skip(k),
                second,
            ) implies glob_denotes(text, both) by {
            assert(k == 0);
        }
    } else {
        let rest = first.skip(1);
        assert(both.skip(1) =~= rest + second);
        assert(both[0] == first[0]);
        if first[0] == STAR {
            if glob_denotes(text, both) {
                let s = choose|s: int|
                    0 <= s <= text.len() && glob_denotes(#[trigger] text.skip(s), both.skip(1));
                let tail = text.skip(s);
                law_glob_concat(tail, rest, second);
                let k = choose|k: int|
                    0 <= k <= tail.len() && glob_denotes(#[trigger] tail.take(k), rest)
                        && glob_denotes(tail.skip(k), second);
                let part = text.take(s + k);
                assert(part.skip(s) =~= tail.take(k));
                assert(glob_denotes(part.skip(s), rest));
                assert(glob_denotes(part, first));
                assert(text.skip(s + k) =~= tail.skip(k));
            }
            assert forall|k: int|
                0 <= k <= text.len() && glob_denotes(#[trigger] text.take(k), first)
                    && glob_denotes(text.skip(k), second) implies glob_denotes(text, both) by {
                let part = text.take(k);
                let s = choose|s: int|
                    0 <= s <= part.len() && glob_denotes(#[trigger] part.skip(s), rest);
                let tail = text.skip(s);
                law_glob_concat(tail, rest, second);
                assert(tail.take(k - s) =~= part.skip(s));
                assert(tail.skip(k - s) =~= text.skip(k));
                assert(glob_denotes(tail.take(k - s), rest));
                assert(glob_denotes(text.skip(s), both.skip(1)));
            }
        } else {
            if glob_denotes(text, both) {
                let tail = text.skip(1);
                law_glob_concat(tail, rest, second);
                let k = choose|k: int|
                    0 <= k <= tail.len() && glob_denotes(#[trigger] tail.take(k), rest)
                        && glob_denotes(tail.skip(k), second);
                let part = text.take(k + 1);
                assert(part[0] == text[0]);
                assert(part.skip(1) =~= tail.take(k));
                assert(glob_denotes(part, first));
                assert(text.skip(k + 1) =~= tail.skip(k));
            }
            assert forall|k: int|
                0 <= k <= text.len() && glob_denotes(#[trigger] text.take(k), first)
                    && glob_denotes(text.skip(k), second) implies glob_denotes(text, both) by {
                let part = text.take(k);
                assert(part.len() > 0 && glob_denotes(part.skip(1), rest));
                assert(part[0] == text[0]);
                let tail = text.skip(1);
                law_glob_concat(tail, rest, second);
                assert(tail.take(k - 1) =~= part.skip(1));
                assert(tail.skip(k - 1) =~= text.skip(k));
                assert(glob_denotes(tail.take(k - 1), rest));
            }
        }
    }
}

/// What a glob denotes is found in every text around it.
pub proof fn law_glob_found_in_context(
    before: Seq<u8>,
    part: Seq<u8>,
    behind: Seq<u8>,
    glob: Seq<u8>,
)
    requires
        glob_denotes(part, glob),
    ensures
        glob_occurs(before + part + behind, glob),
        glob_begins(part + behind, glob),
{
    let text = before + part + behind;
    let i = before.len() as int;
    let j = i + part.len();
    assert(text.subrange(i, j) =~= part);
    assert(glob_denotes(text.subrange(i, j), glob));
    assert((part + behind).take(part.len() as int) =~= part);
    assert(glob_denotes((part + behind).take(part.len() as int), glob));
}

/// Where a glob is found, a part of the text is what it denotes.
pub proof fn law_glob_finds_what_it_denotes(text: Seq<u8>, glob: Seq<u8>)
    ensures
        glob_occurs(text, glob) <==> exists|before: Seq<u8>, part: Seq<u8>, behind: Seq<u8>|
            text == before + part + behind && #[trigger] glob_denotes(part, glob) && (
            #[trigger] (before + behind)).len() + part.len() == text.len(),
        glob_begins(text, glob) <==> exists|part: Seq<u8>, behind: Seq<u8>|
            text == #[trigger] (part + behind) && glob_denotes(part, glob),
{
    if glob_occurs(text, glob) {
        let (i, j) = choose|i: int, j: int|
            0 <= i <= j <= text.len() && #[trigger] glob_denotes(text.subrange(i, j), glob);
        let before = text.take(i);
        let part = text.subrange(i, j);
        let behind = text.skip(j);
        assert(text =~= before + part + behind);
        assert((before + behind).len() + part.len() == text.len());
        assert(glob_denotes(part, glob));
    }
    if exists|before: Seq<u8>, part: Seq<u8>, behind: Seq<u8>|
        text == before + part + behind && #[trigger] glob_denotes(part, glob) && (
        #[trigger] (before + behind)).len() + part.len() == text.len() {
        let (before, part, behind) = choose|before: Seq<u8>, part: Seq<u8>, behind: Seq<u8>|
            text == before + part + behind && #[trigger] glob_denotes(part, glob) && (
            #[trigger] (before + behind)).len() + part.len() == text.len();
        law_glob_found_in_context(before, part, behind, glob);
    }
    if glob_begins(text, glob) {
        let n = choose|n: int| 0 <= n <= text.len() && #[trigger] glob_denotes(text.take(n), glob);
        assert(text =~= text.take(n) + text.skip(n));
    }
    if exists|part: Seq<u8>, behind: Seq<u8>|
        text == #[trigger] (part + behind) && glob_denotes(part, glob) {
        let (part, behind) = choose|part: Seq<u8>, behind: Seq<u8>|
            text == #[trigger] (part + behind) && glob_denotes(part, glob);
        law_glob_found_in_context(Seq::empty(), part, behind, glob);
    }
}

proof fn lemma_fixed_glob(text: Seq<u8>, glob: Seq<u8>)
    requires
        forall|j: int| 0 <= j < glob.len() ==> #[trigger] glob[j] != STAR,
    ensures
        glob_denotes(text, glob) <==> text.len() == glob.len() && forall|j: int|
            0 <= j < glob.len() ==> #[trigger] glob[j] == QUESTION || glob[j] == text[j],
    decreases glob.len(),
{
    if glob.len() > 0 {
        let rest = glob.skip(1);
        assert(glob[0] != STAR);
        assert forall|j: int| 0 <= j < rest.len() implies #[trigger] rest[j] != STAR by {
            assert(rest[j] == glob[j + 1]);
        }
        if text.len() > 0 {
            let tail = text.skip(1);
            lemma_fixed_glob(tail, rest);
            if glob_denotes(text, glob) {
                assert forall|j: int| 0 <= j < glob.len() implies #[trigger] glob[j] == QUESTION
                    || glob[j] == text[j] by {
                    if j > 0 {
                        assert(rest[j - 1] == glob[j]);
                        assert(tail[j - 1] == text[j]);
                    }
                }
            }
            if text.len() == glob.len() && forall|j: int|
                0 <= j < glob.len() ==> #[trigger] glob[j] == QUESTION || glob[j] == text[j] {
                assert forall|j: int| 0 <= j < rest.len() implies #[trigger] rest[j] == QUESTION
                    || rest[j] == tail[j] by {
                    assert(rest[j] == glob[j + 1]);
                    assert(tail[j] == text[j + 1]);
                }
                assert(glob[0] == QUESTION || glob[0] == text[0]);
            }
        }
    }
}

/// A glob of `?` and plain bytes is found in a text that has, at some offset,
/// the bytes of the glob wherever the glob has no `?`.
pub proof fn law_fixed_glob_is_found(text: Seq<u8>, glob: Seq<u8>, at: int)
    requires
        forall|j: int| 0 <= j < glob.len() ==> #[trigger] glob[j] != '*' as u8,
        0 <= at,
        at + glob.len() <= text.len(),
        forall|j: int|
            0 <= j < glob.len() ==> #[trigger] glob[j] == '?' as u8 || glob[j] == text[at + j],
    ensures
        glob_occurs(text, glob),
{
    let part = text.subrange(at, at + glob.len());
    lemma_fixed_glob(part, glob);
    assert(glob_denotes(text.subrange(at, at + glob.len()), glob));
}

/// Where a glob of `?` and plain bytes is found, the text has at some offset the
/// bytes of the glob wherever the glob has no `?`.
pub proof fn law_fixed_glob_stands(text: Seq<u8>, glob: Seq<u8>) -> (at: int)
    requires
        forall|j: int| 0 <= j < glob.len() ==> #[trigger] glob[j] != '*' as u8,
        glob_occurs(text, glob),
    ensures
        0 <= at,
        at + glob.len() <= text.len(),
        forall|j: int|
            0 <= j < glob.len() ==> #[trigger] glob[j] == '?' as u8 || glob[j] == text[at + j],
{
    let (i, j) = choose|i: int, j: int|
        0 <= i <= j <= text.len() && #[trigger] glob_denotes(text.subrange(i, j), glob);
    lemma_fixed_glob(text.subrange(i, j), glob);
    i
}

} // verus!
