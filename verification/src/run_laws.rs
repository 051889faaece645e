//! What a search of a compact table gives, in terms of the states that it runs
//! through.

use vstd::prelude::*;

use crate::encoding::{alphabet_byte, in_alphabet, lemma_alphabet, sextet_of};
use crate::regex_dfa::{is_symbol, GpuRegexDfa, GpuRegexError};

verus! {

/// The entry of a table for a byte of Base64 text in a state.
pub open spec fn entry_at(table: GpuRegexDfa, state: int, byte: u8) -> u32 {
    if byte == '=' as u8 {
        table.equals@[state]
    } else {
        table.transitions@[64 * state + sextet_of(byte)]
    }
}

/// Whether a search runs through states: it begins in state 0, and each byte of
/// Base64 text leads on by an entry that is the number of a state.
pub open spec fn is_run(table: GpuRegexDfa, haystack: Seq<u8>, states: Seq<int>) -> bool {
    &&& 0 < states.len() <= haystack.len() + 1
    &&& states[0] == 0
    &&& forall|i: int|
        #![trigger states[i]]
        0 <= i < states.len() - 1 ==> is_symbol(haystack[i]) && entry_at(
            table,
            states[i],
            haystack[i],
        ) < 0x4000_0000 && entry_at(table, states[i], haystack[i]) < table.state_count && entry_at(
            table,
            states[i],
            haystack[i],
        ) == states[i + 1]
}

/// The column of a character is its place in the alphabet.
pub proof fn law_columns(k: int)
    requires
        0 <= k < 64,
    ensures
        in_alphabet(alphabet_byte(k)),
        sextet_of(alphabet_byte(k)) == k,
{
    lemma_alphabet(k);
}

proof fn lemma_run(table: GpuRegexDfa, haystack: Seq<u8>, states: Seq<int>, n: int)
    requires
        is_run(table, haystack, states),
        0 <= n < states.len(),
    ensures
        table.search(0, haystack) == table.search(states[n], haystack.skip(n)),
    decreases n,
{
    if n == 0 {
        assert(haystack.skip(0) =~= haystack);
    } else {
        lemma_run(table, haystack, states, n - 1);
        let rest = haystack.skip(n - 1);
        assert(rest[0] == haystack[n - 1]);
        assert(rest.drop_first() =~= haystack.skip(n));
        assert(states[n - 1 + 1] == states[n]);
        let entry = entry_at(table, states[n - 1], haystack[n - 1]);
        assert(table.entry(states[n - 1], haystack[n - 1]) == entry);
    }
}

/// After the bytes that it runs through, a search ends in one of these ways: at
/// the end of the input with what the end-of-input table says, at a byte that is
/// no Base64 text with an error, at an entry with bit 31 with a match, at one
/// with bit 30 without, and at one that is no state with an error.
pub proof fn law_search_runs(table: GpuRegexDfa, haystack: Seq<u8>, states: Seq<int>)
    requires
        is_run(table, haystack, states),
    ensures
        ({
            let n = states.len() - 1;
            let state = states[n];
            let entry = entry_at(table, state, haystack[n]);
            &&& n == haystack.len() ==> table.search(0, haystack) == Ok::<bool, GpuRegexError>(
                table.eoi_match@[state] != 0,
            )
            &&& n < haystack.len() && !is_symbol(haystack[n]) ==> table.search(0, haystack)
                == Err::<bool, GpuRegexError>(GpuRegexError::InvalidInput(haystack[n]))
            &&& n < haystack.len() && is_symbol(haystack[n]) && 0x8000_0000 <= entry
                ==> table.search(0, haystack) == Ok::<bool, GpuRegexError>(true)
            &&& n < haystack.len() && is_symbol(haystack[n]) && 0x4000_0000 <= entry < 0x8000_0000
                ==> table.search(0, haystack) == Ok::<bool, GpuRegexError>(false)
            &&& n < haystack.len() && is_symbol(haystack[n]) && entry < 0x4000_0000 && entry
                >= table.state_count ==> table.search(0, haystack) == Err::<bool, GpuRegexError>(
                GpuRegexError::InvalidState,
            )
        }),
{
    let n = states.len() - 1;
    lemma_run(table, haystack, states, n);
    let rest = haystack.skip(n);
    if n < haystack.len() {
        assert(rest[0] == haystack[n]);
        assert(table.entry(states[n], haystack[n]) == entry_at(table, states[n], haystack[n]));
    } else {
        assert(rest.len() == 0);
    }
}

} // verus!
