//! A bounded search: its range, its share of the candidates, and its batches.

use vstd::arithmetic::div_mod::*;
use vstd::prelude::*;
use vstd::string::*;
use vstd::utf8::encode_utf8;

use crate::encoding::KEY_TEXT_LEN;
use crate::pattern::PatternKind;
use crate::text::{append_decimal, decimal_text, is_lower, is_upper};

verus! {

/// Number of candidates in one batch of a CPU search.
pub const CPU_BATCH: u64 = 100_000;

/// Number of leading characters that a search covers where nothing else is
/// asked for, and by which it goes beyond a long literal.
pub const DEFAULT_RANGE: usize = 10;

/// The number of trials that stands for no limit.
pub const UNLIMITED: u64 = u64::MAX;

/// The syntax that the flags select.
pub open spec fn kind_of(glob: bool, regex: bool) -> PatternKind {
    if glob {
        PatternKind::Glob
    } else if regex {
        PatternKind::Regex
    } else {
        PatternKind::Literal
    }
}

/// The end of the range that a search covers: what was asked for, or else room
/// for a long literal, but never more than the text of a key.
pub open spec fn end_of(kind: PatternKind, len: int, range: Option<usize>) -> int {
    let wanted = match range {
        Some(range) => range as int,
        None => if kind is Literal && len > DEFAULT_RANGE {
            len + DEFAULT_RANGE
        } else {
            DEFAULT_RANGE as int
        },
    };
    if wanted < KEY_TEXT_LEN {
        wanted
    } else {
        KEY_TEXT_LEN as int
    }
}

/// Whether a pattern can match within the range: the range is not empty, and a
/// literal fits into it.
pub open spec fn range_serves(kind: PatternKind, len: int, end: int) -> bool {
    end > 0 && (kind is Literal ==> len <= end)
}

/// The text of the error for a range that does not serve.
pub open spec fn range_error_text(end: int) -> Seq<char> {
    "search range "@ + decimal_text(end as nat) + " is invalid for this pattern"@
}

/// Selects the syntax.
pub fn select_kind(glob: bool, regex: bool) -> (kind: PatternKind)
    ensures
        kind == kind_of(glob, regex),
{
    if glob {
        PatternKind::Glob
    } else if regex {
        PatternKind::Regex
    } else {
        PatternKind::Literal
    }
}

/// The end of the range that a search covers.
pub fn search_end(kind: PatternKind, len: usize, range: Option<usize>) -> (end: usize)
    ensures
        end == end_of(kind, len as int, range),
{
    match range {
        Some(range) => if range < KEY_TEXT_LEN {
            range
        } else {
            KEY_TEXT_LEN
        },
        None => if kind == PatternKind::Literal && len > DEFAULT_RANGE {
            if len < KEY_TEXT_LEN - DEFAULT_RANGE {
                len + DEFAULT_RANGE
            } else {
                KEY_TEXT_LEN
            }
        } else {
            DEFAULT_RANGE
        },
    }
}

/// The end of the range that a search covers, or an error where the pattern
/// cannot match within it.
pub fn plan_search(kind: PatternKind, len: usize, range: Option<usize>) -> (result: Result<
    usize,
    String,
>)
    ensures
        result is Ok <==> range_serves(kind, len as int, end_of(kind, len as int, range)),
        result matches Ok(end) ==> end == end_of(kind, len as int, range),
        result matches Err(message) ==> message@ == range_error_text(
            end_of(kind, len as int, range),
        ),
        result matches Ok(end) ==> 0 < end <= 44 && (kind is Literal ==> len <= end),
        result matches Err(message) ==> message@ == "search range "@ + decimal_text(
            end_of(kind, len as int, range) as nat,
        ) + " is invalid for this pattern"@,
{
    let end: usize = search_end(kind, len, range);
    if end == 0 || (kind == PatternKind::Literal && end < len) {
        let mut message = String::new();
        message.append("search range ");
        append_decimal(&mut message, end as u64);
        message.append(" is invalid for this pattern");
        assert(message@ =~= range_error_text(end as int));
        Err(message)
    } else {
        Ok(end)
    }
}

/// The number of offsets at which a literal can stand within the range.
pub fn offsets(len: usize, end: usize) -> (count: usize)
    requires
        len <= end <= KEY_TEXT_LEN,
    ensures
        count == 1 + end - len,
{
    1 + end - len
}

/// Whether a byte is an ASCII letter.
pub open spec fn is_letter(byte: u8) -> bool {
    is_upper(byte) || is_lower(byte)
}

/// The number of ASCII letters among bytes.
pub open spec fn letters(bytes: Seq<u8>) -> nat {
    bytes.filter(|byte: u8| is_letter(byte)).len()
}

/// The number of characters of a text that match in either case.
pub fn casefolded_letters(text: &str, case_sensitive: bool) -> (count: usize)
    ensures
        count == if case_sensitive {
            0
        } else {
            letters(encode_utf8(text@))
        },
{
    if case_sensitive {
        return 0;
    }
    let bytes = text.as_bytes();
    let mut count: usize = 0;
    let mut i: usize = 0;
    while i < bytes.len()
        invariant
            i <= bytes@.len(),
            count <= i,
            count == letters(bytes@.take(i as int)),
        decreases bytes@.len() - i,
    {
        let byte: u8 = bytes[i];
        proof {
            reveal(Seq::filter);
            assert(bytes@.take(i + 1).drop_last() =~= bytes@.take(i as int));
        }
        if (65 <= byte && byte <= 90) || (97 <= byte && byte <= 122) {
            count += 1;
        }
        i += 1;
    }
    assert(bytes@.take(i as int) =~= bytes@);
    count
}

/// The line that announces a search.
pub fn announcement(name: &str, end: usize) -> (line: String)
    ensures
        line@ == "searching for '"@ + name@ + "' in pubkey[0.."@ + decimal_text(end as nat) + "]"@,
{
    let mut line = String::new();
    line.append("searching for '");
    line.append(name);
    line.append("' in pubkey[0..");
    append_decimal(&mut line, end as u64);
    line.append("]");
    assert(line@ =~= "searching for '"@ + name@ + "' in pubkey[0.."@ + decimal_text(end as nat)
        + "]"@);
    line
}

/// The line that reports a keypair.
pub fn match_line(pair: &(String, String)) -> (line: String)
    ensures
        line@ == "private "@ + pair.0@ + "  public "@ + pair.1@,
{
    let mut line = String::new();
    line.append("private ");
    line.append(pair.0.as_str());
    line.append("  public ");
    line.append(pair.1.as_str());
    assert(line@ =~= "private "@ + pair.0@ + "  public "@ + pair.1@);
    line
}

/// The share of the trials that falls to one of several ranks. The remainder
/// goes to the first ranks, one trial to each; without a limit every rank is
/// without one.
pub open spec fn share_of(trials: int, rank: int, ranks: int) -> int {
    if trials == UNLIMITED {
        UNLIMITED as int
    } else if rank < trials % ranks {
        trials / ranks + 1
    } else {
        trials / ranks
    }
}

/// The sum of the shares of the first ranks.
pub open spec fn shares_below(trials: int, count: int, ranks: int) -> int
    decreases count,
{
    if count <= 0 {
        0
    } else {
        shares_below(trials, count - 1, ranks) + share_of(trials, count - 1, ranks)
    }
}

/// The share of the trials that falls to one of several ranks.
pub fn rank_share(trials: u64, rank: u64, ranks: u64) -> (share: u64)
    requires
        rank < ranks,
    ensures
        share == share_of(trials as int, rank as int, ranks as int),
{
    if trials == UNLIMITED {
        UNLIMITED
    } else if rank < trials % ranks {
        proof {
            lemma_div_is_ordered_by_denominator(trials as int, 1, ranks as int);
        }
        trials / ranks + 1
    } else {
        trials / ranks
    }
}

proof fn lemma_shares(trials: int, count: int, ranks: int)
    requires
        0 <= trials,
        trials != UNLIMITED,
        0 <= count <= ranks,
        0 < ranks,
    ensures
        shares_below(trials, count, ranks) == count * (trials / ranks) + if count < trials % ranks {
            count
        } else {
            trials % ranks
        },
    decreases count,
{
    let each = trials / ranks;
    if count > 0 {
        lemma_shares(trials, count - 1, ranks);
        assert(count * each == (count - 1) * each + each) by (nonlinear_arith);
    } else {
        assert(0 * each == 0) by (nonlinear_arith);
        lemma_mod_bound(trials, ranks);
    }
}

/// The shares of all ranks add up to the trials that were asked for.
pub proof fn law_shares_add_up(trials: int, ranks: int)
    requires
        0 <= trials < UNLIMITED,
        0 < ranks,
    ensures
        shares_below(trials, ranks, ranks) == trials,
{
    lemma_shares(trials, ranks, ranks);
    lemma_mod_bound(trials, ranks);
    lemma_fundamental_div_mod(trials, ranks);
}

/// The shares of two ranks differ by at most one trial.
pub proof fn law_shares_are_even(trials: int, one: int, other: int, ranks: int)
    requires
        0 < ranks,
    ensures
        share_of(trials, one, ranks) <= share_of(trials, other, ranks) + 1,
{
}

/// The size of the next batch of a search.
pub open spec fn batch_size(attempted: int, max_trials: int) -> int {
    if max_trials - attempted < CPU_BATCH {
        max_trials - attempted
    } else {
        CPU_BATCH as int
    }
}

/// The progress of a CPU search.
#[derive(Clone, Copy, Debug)]
pub struct CpuSearch {
    attempted: u64,
    max_trials: u64,
}

impl CpuSearch {
    /// The number of candidates handed out so far.
    pub closed spec fn attempts(self) -> int {
        self.attempted as int
    }

    /// The number of candidates after which the search stops.
    pub closed spec fn limit(self) -> int {
        self.max_trials as int
    }

    /// No more candidates are handed out than the limit allows.
    #[verifier::type_invariant]
    spec fn wf(self) -> bool {
        self.attempted <= self.max_trials
    }

    /// A search that stops after `max_trials` candidates.
    pub fn new(max_trials: u64) -> (search: Self)
        ensures
            search.attempts() == 0,
            search.limit() == max_trials,
    {
        CpuSearch { attempted: 0, max_trials }
    }

    /// The number of candidates handed out so far.
    pub fn attempted(&self) -> (attempted: u64)
        ensures
            attempted == self.attempts(),
            attempted <= self.limit(),
    {
        proof {
            use_type_invariant(self);
        }
        self.attempted
    }

    /// Hands out the next batch, unless the limit is reached or the time is
    /// over.
    pub fn next_batch(&mut self, in_time: bool) -> (batch: Option<u64>)
        ensures
            final(self).limit() == old(self).limit(),
            batch is Some <==> old(self).attempts() < old(self).limit() && in_time,
            match batch {
                Some(count) => {
                    &&& count == batch_size(old(self).attempts(), old(self).limit())
                    &&& final(self).attempts() == old(self).attempts() + count
                },
                None => final(self).attempts() == old(self).attempts(),
            },
            batch matches Some(count) ==> {
                &&& 0 < count <= 100_000
                &&& final(self).attempts() == old(self).attempts() + count
                &&& final(self).attempts() <= old(self).limit()
                &&& count < 100_000 ==> final(self).attempts() == old(self).limit()
            },
    {
        proof {
            use_type_invariant(&*self);
        }
        let attempted: u64 = self.attempted;
        let max_trials: u64 = self.max_trials;
        if attempted >= max_trials || !in_time {
            return None;
        }
        let left: u64 = max_trials - attempted;
        let count: u64 = if CPU_BATCH < left {
            CPU_BATCH
        } else {
            left
        };
        *self = CpuSearch { attempted: attempted + count, max_trials };
        Some(count)
    }
}

/// The candidates handed out after a number of batches.
pub open spec fn attempted_after(batches: int, max_trials: int) -> int
    decreases batches,
{
    if batches <= 0 {
        0
    } else {
        let before = attempted_after(batches - 1, max_trials);
        if before < max_trials {
            before + batch_size(before, max_trials)
        } else {
            before
        }
    }
}

/// A search that is not cut short hands out whole batches until the limit, and
/// then exactly the limit: it never goes beyond, and it never stops short.
pub proof fn law_batches_reach_limit(batches: int, max_trials: int)
    requires
        0 <= batches,
        0 <= max_trials,
    ensures
        attempted_after(batches, max_trials) == if batches * CPU_BATCH < max_trials {
            batches * CPU_BATCH
        } else {
            max_trials
        },
    decreases batches,
{
    if batches > 0 {
        law_batches_reach_limit(batches - 1, max_trials);
    }
}

} // verus!
