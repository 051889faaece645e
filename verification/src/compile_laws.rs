//! What compiling a regular expression gives, in terms of the dense DFA of the
//! pattern and of the states that Base64 text can lead to in it.

use regex_automata::dfa::dense;
use vstd::prelude::*;
use vstd::utf8::encode_utf8;

use crate::dense::{
    build_error_text, built_dense_dfa, dense_eoi, dense_is_match, dense_is_quit, dense_next,
    dense_start, match_error_text, DfaOptions,
};
use crate::encoding::{alphabet_byte, lemma_alphabet, sextet_of, PADDING};
use crate::dfa_laws::law_numbering;
use crate::reach_laws::{
    all_reachable, can_quit, goes_on, is_walk, law_numbered_are_reachable, law_rejection_is_justified,
    law_table_exists, reachable,
};
use crate::trace_laws::{
    is_read, law_numbers_follow_the_edges, law_rejected_at_first_reason, rejected_at,
};
use crate::regex_dfa::{
    dense_edge, dense_row, dense_rows, encodes, is_compiled, is_symbol, numbering, symbol_byte,
    symbol_of, table_options, GpuRegexDfa, GpuRegexError, Rejection,
};

verus! {

/// A symbol is `=` or one of the 64 characters of the Base64 alphabet.
pub proof fn law_symbols(byte: u8)
    ensures
        is_symbol(byte) <==> byte == '=' as u8 || exists|k: int|
            0 <= k < 64 && #[trigger] alphabet_byte(k) == byte,
        is_symbol(byte) <==> byte == 61 || 65 <= byte <= 90 || 97 <= byte <= 122 || 48 <= byte <= 57
            || byte == 43 || byte == 47,
{
    if 65 <= byte <= 90 {
        assert(alphabet_byte(byte - 65) == byte);
    }
    if 97 <= byte <= 122 {
        assert(alphabet_byte(byte - 97 + 26) == byte);
    }
    if 48 <= byte <= 57 {
        assert(alphabet_byte(byte - 48 + 52) == byte);
    }
    assert(alphabet_byte(62) == 43);
    assert(alphabet_byte(63) == 47);
}

/// Whether a byte of Base64 text leads from one state to another that is neither
/// a match nor dead.
pub open spec fn text_leads(dfa: dense::DFA<Vec<u32>>, state: u32, next: u32) -> bool {
    &&& !dense_is_match(dfa, next)
    &&& next != 0
    &&& exists|byte: u8| is_symbol(byte) && #[trigger] dense_next(dfa, state, byte) == next
}

/// Whether a walk over a dense DFA begins with `start`, reads Base64 text, and
/// comes to no match and not to the dead state.
pub open spec fn is_dense_walk(dfa: dense::DFA<Vec<u32>>, start: u32, walk: Seq<u32>) -> bool {
    &&& walk.len() > 0
    &&& walk[0] == start
    &&& forall|i: int|
        #![trigger walk[i]]
        0 <= i < walk.len() - 1 ==> text_leads(dfa, walk[i], walk[i + 1])
}

/// Whether Base64 text can lead from `start` to `state`.
pub open spec fn dense_reachable(dfa: dense::DFA<Vec<u32>>, start: u32, state: u32) -> bool {
    exists|walk: Seq<u32>| #[trigger] is_dense_walk(dfa, start, walk) && walk.last() == state
}

/// Whether states are pairwise different and Base64 text can lead to all of
/// them.
pub open spec fn all_dense_reachable(
    dfa: dense::DFA<Vec<u32>>,
    start: u32,
    states: Seq<u32>,
) -> bool {
    &&& states.no_duplicates()
    &&& forall|i: int| 0 <= i < states.len() ==> dense_reachable(dfa, start, #[trigger] states[i])
}

/// Whether a search in a state can give up: Base64 text or its end leads to a
/// quit state.
pub open spec fn gives_up(dfa: dense::DFA<Vec<u32>>, state: u32) -> bool {
    ||| dense_is_quit(dfa, dense_eoi(dfa, state))
    ||| exists|byte: u8|
        is_symbol(byte) && dense_is_quit(dfa, #[trigger] dense_next(dfa, state, byte))
            && !dense_is_match(dfa, dense_next(dfa, state, byte)) && dense_next(dfa, state, byte)
            != 0
}

/// Whether the states that Base64 text can lead to fit a table: there are at
/// most 4096, their rows of 261 bytes take at most 1 MiB, and a search can give
/// up in none of them.
pub open spec fn fits_table(dfa: dense::DFA<Vec<u32>>, start: u32) -> bool {
    &&& forall|state: u32| #[trigger] dense_reachable(dfa, start, state) ==> !gives_up(dfa, state)
    &&& forall|states: Seq<u32>| #[trigger]
        all_dense_reachable(dfa, start, states) ==> states.len() <= 4096 && states.len() * 261
            <= 1_048_576
}

/// Each byte of Base64 text stands for one edge of a row, and each edge for one
/// byte.
proof fn lemma_symbol_edges(dfa: dense::DFA<Vec<u32>>, state: u32)
    ensures
        dense_row(dfa, state).edges.len() == 65,
        forall|byte: u8|
            is_symbol(byte) ==> 0 <= symbol_of(byte) < 65 && dense_row(dfa, state).edges[symbol_of(
                byte,
            )] == dense_edge(dfa, #[trigger] dense_next(dfa, state, byte)),
        forall|k: int|
            0 <= k < 65 ==> is_symbol(symbol_byte(k)) && #[trigger] dense_row(dfa, state).edges[k]
                == dense_edge(dfa, dense_next(dfa, state, symbol_byte(k))),
{
    assert forall|byte: u8| is_symbol(byte) implies 0 <= symbol_of(byte) < 65 && dense_row(
        dfa,
        state,
    ).edges[symbol_of(byte)] == dense_edge(dfa, #[trigger] dense_next(dfa, state, byte)) by {
        if byte != PADDING {
            let k = sextet_of(byte);
            assert(0 <= k < 64 && alphabet_byte(k) == byte);
        }
        assert(symbol_byte(symbol_of(byte)) == byte);
    }
    assert forall|k: int| 0 <= k < 65 implies is_symbol(symbol_byte(k)) && #[trigger] dense_row(
        dfa,
        state,
    ).edges[k] == dense_edge(dfa, dense_next(dfa, state, symbol_byte(k))) by {
        if k < 64 {
            lemma_alphabet(k);
        }
    }
}

proof fn lemma_steps_agree(dfa: dense::DFA<Vec<u32>>, state: u32, next: u32)
    ensures
        goes_on(dense_row(dfa, state), next) <==> text_leads(dfa, state, next),
{
    lemma_symbol_edges(dfa, state);
    let row = dense_row(dfa, state);
    if goes_on(row, next) {
        let k = choose|k: int|
            0 <= k < row.edges.len() && !(#[trigger] row.edges[k]).matching && !row.edges[k].dead
                && row.edges[k].state == next;
        assert(dense_next(dfa, state, symbol_byte(k)) == next);
    }
    if text_leads(dfa, state, next) {
        let byte = choose|byte: u8|
            is_symbol(byte) && #[trigger] dense_next(dfa, state, byte) == next;
        assert(!row.edges[symbol_of(byte)].matching);
    }
}

proof fn lemma_walks_agree(dfa: dense::DFA<Vec<u32>>, start: u32, walk: Seq<u32>)
    ensures
        is_walk(dense_rows(dfa), start, walk) <==> is_dense_walk(dfa, start, walk),
{
    let source = dense_rows(dfa);
    assert forall|i: int| #![trigger walk[i]] 0 <= i < walk.len() - 1 implies (goes_on(
        source(walk[i]),
        walk[i + 1],
    ) <==> text_leads(dfa, walk[i], walk[i + 1])) by {
        lemma_steps_agree(dfa, walk[i], walk[i + 1]);
        assert(source(walk[i]) == dense_row(dfa, walk[i]));
    }
}

proof fn lemma_reachable_agrees(dfa: dense::DFA<Vec<u32>>, start: u32)
    ensures
        forall|state: u32|
            reachable(dense_rows(dfa), start, state) <==> #[trigger] dense_reachable(
                dfa,
                start,
                state,
            ),
        forall|states: Seq<u32>|
            all_reachable(dense_rows(dfa), start, states) <==> #[trigger] all_dense_reachable(
                dfa,
                start,
                states,
            ),
        forall|state: u32|
            can_quit(#[trigger] dense_row(dfa, state)) <==> #[trigger] gives_up(dfa, state),
{
    let source = dense_rows(dfa);
    assert forall|state: u32| reachable(source, start, state) <==> #[trigger] dense_reachable(
        dfa,
        start,
        state,
    ) by {
        if reachable(source, start, state) {
            let walk = choose|walk: Seq<u32>|
                #[trigger] is_walk(source, start, walk) && walk.last() == state;
            lemma_walks_agree(dfa, start, walk);
        }
        if dense_reachable(dfa, start, state) {
            let walk = choose|walk: Seq<u32>|
                #[trigger] is_dense_walk(dfa, start, walk) && walk.last() == state;
            lemma_walks_agree(dfa, start, walk);
        }
    }
    assert forall|states: Seq<u32>|
        all_reachable(source, start, states) <==> #[trigger] all_dense_reachable(
            dfa,
            start,
            states,
        ) by {
        if all_reachable(source, start, states) {
            assert forall|i: int| 0 <= i < states.len() implies dense_reachable(
                dfa,
                start,
                #[trigger] states[i],
            ) by {
                assert(reachable(source, start, states[i]));
            }
        }
        if all_dense_reachable(dfa, start, states) {
            assert forall|i: int| 0 <= i < states.len() implies reachable(
                source,
                start,
                #[trigger] states[i],
            ) by {
                assert(dense_reachable(dfa, start, states[i]));
            }
        }
    }
    assert forall|state: u32|
        can_quit(#[trigger] dense_row(dfa, state)) <==> #[trigger] gives_up(dfa, state) by {
        lemma_symbol_edges(dfa, state);
        let row = dense_row(dfa, state);
        if can_quit(row) && !row.eoi.quit {
            let k = choose|k: int|
                0 <= k < row.edges.len() && (#[trigger] row.edges[k]).quit
                    && !row.edges[k].matching && !row.edges[k].dead;
            assert(dense_is_quit(dfa, dense_next(dfa, state, symbol_byte(k))));
        }
        if gives_up(dfa, state) && !dense_is_quit(dfa, dense_eoi(dfa, state)) {
            let byte = choose|byte: u8|
                is_symbol(byte) && dense_is_quit(dfa, #[trigger] dense_next(dfa, state, byte))
                    && !dense_is_match(dfa, dense_next(dfa, state, byte)) && dense_next(
                    dfa,
                    state,
                    byte,
                ) != 0;
            assert(row.edges[symbol_of(byte)].quit);
        }
    }
}

proof fn lemma_fits(dfa: dense::DFA<Vec<u32>>, start: u32)
    ensures
        numbering(dense_rows(dfa), start) is Ok <==> fits_table(dfa, start),
{
    let source = dense_rows(dfa);
    law_table_exists(source, start);
    lemma_reachable_agrees(dfa, start);
    assert forall|state: u32| can_quit(#[trigger] source(state)) <==> gives_up(dfa, state) by {
        assert(source(state) == dense_row(dfa, state));
    }
    if fits_table(dfa, start) {
        assert forall|state: u32| #[trigger] reachable(source, start, state) implies !can_quit(
            source(state),
        ) by {
            assert(dense_reachable(dfa, start, state));
        }
        assert forall|states: Seq<u32>| #[trigger]
            all_reachable(source, start, states) implies states.len() <= 4096 && states.len() * 261
            <= 1_048_576 by {
            assert(all_dense_reachable(dfa, start, states));
        }
    }
    if numbering(source, start) is Ok {
        assert forall|state: u32| #[trigger] dense_reachable(dfa, start, state) implies !gives_up(
            dfa,
            state,
        ) by {
            assert(reachable(source, start, state));
            assert(!can_quit(source(state)));
        }
        assert forall|states: Seq<u32>| #[trigger]
            all_dense_reachable(dfa, start, states) implies states.len() <= 4096 && states.len()
            * 261 <= 1_048_576 by {
            assert(all_reachable(source, start, states));
        }
    }
}

/// The options with which a pattern is built into a dense DFA.
pub proof fn law_table_options(case_sensitive: bool)
    ensures
        table_options(case_sensitive) == (DfaOptions {
            case_insensitive: !case_sensitive,
            unicode: true,
            utf8: false,
            unicode_word_boundary: true,
            minimize: false,
            accelerate: false,
            determinize_size_limit: Some(0x200_0000),
            dfa_size_limit: Some(0x200_0000),
        }),
{
}

/// Compiling succeeds exactly if the pattern has 1 to 4096 bytes, the builder
/// accepts it, it does not match before the first byte, and the states that
/// Base64 text can lead to fit a table.
pub proof fn law_compile_succeeds(
    pattern: Seq<char>,
    case_sensitive: bool,
    result: Result<GpuRegexDfa, GpuRegexError>,
)
    requires
        is_compiled(pattern, case_sensitive, result),
    ensures
        result is Ok <==> {
            &&& pattern.len() > 0
            &&& encode_utf8(pattern).len() <= 4096
            &&& built_dense_dfa(pattern, table_options(case_sensitive)) matches Ok(dfa)
            &&& dense_start(dfa, Seq::empty()) matches Ok(start)
            &&& !dense_is_match(dfa, start)
            &&& fits_table(dfa, start)
        },
{
    if let Ok(dfa) = built_dense_dfa(pattern, table_options(case_sensitive)) {
        if let Ok(start) = dense_start(dfa, Seq::empty()) {
            lemma_fits(dfa, start);
        }
    }
}

/// Every error of compiling has its reason: there are too many states only
/// where Base64 text can lead to 4097 of them, and the table is too large only
/// where it can lead to 4018.
pub proof fn law_compile_errors(
    pattern: Seq<char>,
    case_sensitive: bool,
    error: GpuRegexError,
)
    requires
        is_compiled(pattern, case_sensitive, Err(error)),
    ensures
        pattern.len() == 0 ==> error is EmptyPattern,
        pattern.len() > 0 ==> (error is PatternTooLong <==> encode_utf8(pattern).len() > 4096),
        match error {
            GpuRegexError::EmptyPattern => pattern.len() == 0 || (built_dense_dfa(
                pattern,
                table_options(case_sensitive),
            ) matches Ok(dfa) && dense_start(dfa, Seq::empty()) matches Ok(start)
                && dense_is_match(dfa, start)),
            GpuRegexError::PatternTooLong => encode_utf8(pattern).len() > 4096,
            GpuRegexError::Compile(text) => match built_dense_dfa(
                pattern,
                table_options(case_sensitive),
            ) {
                Err(reason) => text@ == build_error_text(reason),
                Ok(dfa) => dense_start(dfa, Seq::empty()) matches Err(reason) && text@
                    == match_error_text(reason),
            },
            GpuRegexError::TooManyStates { states, limit } => {
                &&& states == 4097
                &&& limit == 4096
                &&& built_dense_dfa(pattern, table_options(case_sensitive)) matches Ok(dfa)
                &&& dense_start(dfa, Seq::empty()) matches Ok(start)
                &&& exists|found: Seq<u32>| #[trigger]
                    all_dense_reachable(dfa, start, found) && found.len() == 4097
            },
            GpuRegexError::TableTooLarge { bytes, limit } => {
                &&& bytes == 4018 * 261
                &&& limit == 1_048_576
                &&& built_dense_dfa(pattern, table_options(case_sensitive)) matches Ok(dfa)
                &&& dense_start(dfa, Seq::empty()) matches Ok(start)
                &&& exists|found: Seq<u32>| #[trigger]
                    all_dense_reachable(dfa, start, found) && found.len() == 4018
            },
            GpuRegexError::QuitStateReachable => {
                &&& built_dense_dfa(pattern, table_options(case_sensitive)) matches Ok(dfa)
                &&& dense_start(dfa, Seq::empty()) matches Ok(start)
                &&& exists|state: u32| #[trigger]
                    dense_reachable(dfa, start, state) && gives_up(dfa, state)
            },
            GpuRegexError::InvalidState => false,
            GpuRegexError::InvalidInput(_) => false,
        },
{
    if let Ok(dfa) = built_dense_dfa(pattern, table_options(case_sensitive)) {
        if let Ok(start) = dense_start(dfa, Seq::empty()) {
            let source = dense_rows(dfa);
            lemma_reachable_agrees(dfa, start);
            if let Err(rejection) = numbering(source, start) {
                law_rejection_is_justified(source, start, rejection);
                match rejection {
                    Rejection::Quit => {
                        let state = choose|state: u32|
                            #[trigger] reachable(source, start, state) && can_quit(source(state));
                        assert(source(state) == dense_row(dfa, state));
                        assert(can_quit(dense_row(dfa, state)) <==> gives_up(dfa, state));
                        assert(dense_reachable(dfa, start, state) && gives_up(dfa, state));
                    },
                    Rejection::TooManyStates => {
                        let found = choose|states: Seq<u32>|
                            #[trigger] all_reachable(source, start, states) && states.len()
                                == 4097;
                        assert(all_dense_reachable(dfa, start, found));
                    },
                    Rejection::TableTooLarge { .. } => {
                        let found = choose|states: Seq<u32>|
                            #[trigger] all_reachable(source, start, states) && states.len()
                                == 4018;
                        assert(all_dense_reachable(dfa, start, found));
                    },
                }
            }
        }
    }
}

/// Where a dense DFA has no table, the error tells the reason that the reading of
/// its rows comes to first.
pub proof fn law_compile_reports_first_reason(
    pattern: Seq<char>,
    case_sensitive: bool,
    error: GpuRegexError,
) -> (at: (Seq<u32>, int, int))
    requires
        is_compiled(pattern, case_sensitive, Err(error)),
        pattern.len() > 0,
        encode_utf8(pattern).len() <= 4096,
    ensures
        built_dense_dfa(pattern, table_options(case_sensitive)) matches Ok(dfa) ==> dense_start(
            dfa,
            Seq::empty(),
        ) matches Ok(start) ==> !dense_is_match(dfa, start) ==> {
            let source = dense_rows(dfa);
            match error {
                GpuRegexError::TooManyStates { .. } => rejected_at(
                    source,
                    start,
                    at.0,
                    at.1,
                    at.2,
                    Rejection::TooManyStates,
                ),
                GpuRegexError::TableTooLarge { .. } => rejected_at(
                    source,
                    start,
                    at.0,
                    at.1,
                    at.2,
                    Rejection::TableTooLarge { rows: 4018 },
                ),
                GpuRegexError::QuitStateReachable => rejected_at(
                    source,
                    start,
                    at.0,
                    at.1,
                    at.2,
                    Rejection::Quit,
                ),
                _ => false,
            }
        },
{
    if let Ok(dfa) = built_dense_dfa(pattern, table_options(case_sensitive)) {
        if let Ok(start) = dense_start(dfa, Seq::empty()) {
            if !dense_is_match(dfa, start) {
                let source = dense_rows(dfa);
                let rejection = numbering(source, start)->Err_0;
                law_rejection_is_justified(source, start, rejection);
                law_rejected_at_first_reason(source, start, rejection)
            } else {
                (seq![], 0, 0)
            }
        } else {
            (seq![], 0, 0)
        }
    } else {
        (seq![], 0, 0)
    }
}

/// Whether a table entry stands for the transition to `next`: bit 31 alone for
/// a match, bit 30 alone for the dead state, else the number of the state.
pub open spec fn stands_for_next(
    entry: u32,
    dfa: dense::DFA<Vec<u32>>,
    next: u32,
    order: Seq<u32>,
) -> bool {
    if dense_is_match(dfa, next) {
        entry == 0x8000_0000
    } else if next == 0 {
        entry == 0x4000_0000
    } else {
        entry < order.len() && order[entry as int] == next
    }
}

/// The layout of a compiled table. Its states are those that Base64 text can
/// lead to, the start state first. For each of them it has 64 transitions, one
/// for each character of the alphabet in the order of its six-bit value, one for
/// `=`, and a flag that tells whether the end of the input matches.
pub proof fn law_compiled_layout(
    pattern: Seq<char>,
    case_sensitive: bool,
    table: GpuRegexDfa,
) -> (order: Seq<u32>)
    requires
        is_compiled(pattern, case_sensitive, Ok(table)),
    ensures
        built_dense_dfa(pattern, table_options(case_sensitive)) matches Ok(dfa) && dense_start(
            dfa,
            Seq::empty(),
        ) matches Ok(start) && {
            &&& order.len() == table.state_count
            &&& order.len() > 0
            &&& order[0] == start
            &&& order.no_duplicates()
            &&& is_read(
                dense_rows(dfa),
                start,
                order,
                65 * order.len() as int,
                order.len() as int,
            )
            &&& forall|state: u32|
                order.contains(state) <==> #[trigger] dense_reachable(dfa, start, state)
            &&& table.transitions@.len() == 64 * order.len()
            &&& table.equals@.len() == order.len()
            &&& table.eoi_match@.len() == order.len()
            &&& forall|i: int, k: int|
                0 <= i < order.len() && 0 <= k < 64 ==> stands_for_next(
                    table.transitions@[64 * i + k],
                    dfa,
                    #[trigger] dense_next(dfa, order[i], alphabet_byte(k)),
                    order,
                )
            &&& forall|i: int|
                0 <= i < order.len() ==> stands_for_next(
                    #[trigger] table.equals@[i],
                    dfa,
                    dense_next(dfa, order[i], '=' as u8),
                    order,
                )
            &&& forall|i: int|
                0 <= i < order.len() ==> #[trigger] table.eoi_match@[i] == if dense_is_match(
                    dfa,
                    dense_eoi(dfa, order[i]),
                ) {
                    1u8
                } else {
                    0u8
                }
        },
{
    let dfa = built_dense_dfa(pattern, table_options(case_sensitive))->Ok_0;
    let start = dense_start(dfa, Seq::empty())->Ok_0;
    let source = dense_rows(dfa);
    let order = numbering(source, start)->Ok_0;
    law_numbering(source, start, order);
    law_numbers_follow_the_edges(source, start, order);
    law_numbered_are_reachable(source, start, order, seq![]);
    lemma_reachable_agrees(dfa, start);
    let rows = order.map_values(|state: u32| source(state));
    assert forall|state: u32|
        order.contains(state) <==> #[trigger] dense_reachable(dfa, start, state) by {
        assert(reachable(source, start, state) <==> dense_reachable(dfa, start, state));
    }
    assert forall|i: int, k: int| 0 <= i < order.len() && 0 <= k < 64 implies stands_for_next(
        table.transitions@[64 * i + k],
        dfa,
        #[trigger] dense_next(dfa, order[i], alphabet_byte(k)),
        order,
    ) by {
        assert(rows[i] == dense_row(dfa, order[i]));
        assert(encodes(table.transitions@[64 * i + k], rows[i].edges[k], order));
    }
    assert forall|i: int| 0 <= i < order.len() implies stands_for_next(
        #[trigger] table.equals@[i],
        dfa,
        dense_next(dfa, order[i], '=' as u8),
        order,
    ) by {
        assert(rows[i] == dense_row(dfa, order[i]));
        assert(encodes(table.equals@[i], rows[i].edges[64], order));
    }
    assert forall|i: int| 0 <= i < order.len() implies #[trigger] table.eoi_match@[i]
        == if dense_is_match(dfa, dense_eoi(dfa, order[i])) {
        1u8
    } else {
        0u8
    } by {
        assert(rows[i] == dense_row(dfa, order[i]));
    }
    order
}

} // verus!
