//! What holds of every compact table.

use crate::dense::{
    built_dense_dfa, dense_accepts, dense_next, dense_start, finds_like_regex, is_ascii_text,
};
use crate::encoding::{
    alphabet_byte, base64_of, law_key_text_shape, lemma_alphabet, sextet_of, KEY_BYTES, PADDING,
};
use crate::regex_dfa::{
    accepts, dense_row, dense_rows, encodes, explore, is_compiled, is_symbol, number_edges,
    numbering, symbol_byte, symbol_of, table_options, target, Edge, GpuRegexDfa, GpuRegexError, Row,
    GPU_STATE_LIMIT, GPU_TABLE_LIMIT, ROW_BYTES, SYMBOLS,
};
use crate::pattern::{is_prepared, GpuPattern, Pattern};
use crate::regex_engine::{built_regex, regex_matches};
use crate::text::normalized;
use regex_automata::dfa::dense;
use vstd::prelude::*;
use vstd::utf8::encode_utf8;

verus! {

/// Whether every row has an edge for each symbol.
pub open spec fn has_full_rows(source: spec_fn(u32) -> Row) -> bool {
    forall|state: u32| (#[trigger] source(state)).edges.len() == SYMBOLS
}

/// Whether the edge of a row leads to a numbered state, a match or nowhere.
pub open spec fn is_closed(row: Row, order: Seq<u32>) -> bool {
    &&& !row.eoi.quit
    &&& forall|k: int|
        0 <= k < row.edges.len() && (#[trigger] row.edges[k]).is_live() ==> !row.edges[k].quit
            && order.contains(row.edges[k].state)
}

/// Whether a live edge of the row leads to the state.
pub open spec fn leads_to(row: Row, state: u32) -> bool {
    exists|k: int|
        0 <= k < row.edges.len() && (#[trigger] row.edges[k]).is_live() && row.edges[k].state
            == state
}

/// What following the edges of a row does to the numbered states.
pub proof fn lemma_edges(edges: Seq<Edge>, order: Seq<u32>)
    requires
        order.no_duplicates(),
        order.len() <= GPU_STATE_LIMIT,
    ensures
        number_edges(edges, order) matches Ok(longer) ==> {
            &&& order.is_prefix_of(longer)
            &&& longer.no_duplicates()
            &&& longer.len() <= GPU_STATE_LIMIT
            &&& forall|k: int|
                0 <= k < edges.len() && (#[trigger] edges[k]).is_live() ==> !edges[k].quit
                    && longer.contains(edges[k].state)
            &&& forall|i: int|
                #![trigger longer[i]]
                order.len() <= i < longer.len() ==> exists|k: int|
                    0 <= k < edges.len() && (#[trigger] edges[k]).is_live() && edges[k].state
                        == longer[i]
        },
    decreases edges.len(),
{
    if edges.len() > 0 && number_edges(edges, order) is Ok {
        let shorter = edges.drop_last();
        lemma_edges(shorter, order);
        let before = number_edges(shorter, order)->Ok_0;
        let longer = number_edges(edges, order)->Ok_0;
        let edge = edges.last();
        assert forall|k: int|
            0 <= k < edges.len() && (#[trigger] edges[k]).is_live() implies !edges[k].quit
            && longer.contains(edges[k].state) by {
            if k < shorter.len() {
                assert(shorter[k] == edges[k]);
                let i = choose|i: int| 0 <= i < before.len() && before[i] == edges[k].state;
                assert(longer[i] == edges[k].state);
            } else if !before.contains(edge.state) {
                assert(longer[before.len() as int] == edge.state);
            }
        }
        assert forall|i: int|
            #![trigger longer[i]]
            order.len() <= i < longer.len() implies exists|k: int|
            0 <= k < edges.len() && (#[trigger] edges[k]).is_live() && edges[k].state
                == longer[i] by {
            if i < before.len() {
                assert(before[i] == longer[i]);
                let k = choose|k: int|
                    0 <= k < shorter.len() && (#[trigger] shorter[k]).is_live() && shorter[k].state
                        == before[i];
                assert(edges[k] == shorter[k]);
            } else {
                assert(edges[edges.len() - 1] == edge);
            }
        }
    }
}

/// What exploring the first rows does to the numbered states.
pub proof fn lemma_explore(source: spec_fn(u32) -> Row, start: u32, count: nat)
    ensures
        explore(source, start, count) matches Ok(order) ==> {
            &&& order.len() > 0
            &&& order[0] == start
            &&& order.no_duplicates()
            &&& order.len() <= GPU_STATE_LIMIT
            &&& count <= order.len() ==> count * ROW_BYTES <= GPU_TABLE_LIMIT
            &&& order.len() <= count ==> order.len() * ROW_BYTES <= GPU_TABLE_LIMIT
            &&& forall|i: int|
                0 <= i < count && i < order.len() ==> is_closed(source(#[trigger] order[i]), order)
            &&& forall|j: int|
                #![trigger order[j]]
                0 < j < order.len() ==> exists|i: int|
                    0 <= i < j && leads_to(source(#[trigger] order[i]), order[j])
        },
    decreases count,
{
    if count == 0 {
    } else if explore(source, start, count) is Ok {
        lemma_explore(source, start, (count - 1) as nat);
        let before = explore(source, start, (count - 1) as nat)->Ok_0;
        let order = explore(source, start, count)->Ok_0;
        if before.len() >= count {
            let row = source(before[count - 1]);
            lemma_edges(row.edges, before);
            assert(before.is_prefix_of(order));
            assert forall|i: int| 0 <= i < count && i < order.len() implies is_closed(
                source(#[trigger] order[i]),
                order,
            ) by {
                assert(order[i] == before[i]);
                let r = source(before[i]);
                if i < count - 1 {
                    assert(is_closed(r, before));
                    assert forall|k: int|
                        0 <= k < r.edges.len() && (#[trigger] r.edges[k]).is_live() implies !r.edges[k].quit
                        && order.contains(r.edges[k].state) by {
                        let j = choose|j: int|
                            0 <= j < before.len() && before[j] == r.edges[k].state;
                        assert(order[j] == r.edges[k].state);
                    }
                }
            }
            assert forall|j: int| #![trigger order[j]] 0 < j < order.len() implies exists|i: int|
                0 <= i < j && leads_to(source(#[trigger] order[i]), order[j]) by {
                if j < before.len() {
                    assert(order[j] == before[j]);
                    let i = choose|i: int|
                        0 <= i < j && leads_to(source(#[trigger] before[i]), before[j]);
                    assert(order[i] == before[i]);
                } else {
                    assert(order[count - 1] == before[count - 1]);
                    assert(leads_to(row, order[j]));
                }
            }
        }
    }
}

/// The numbered states begin with the start state, are pairwise different, fit
/// the limits, and are exactly the states that a search can visit: each one
/// after the first is reached by a live edge from one with a lower number, and
/// no live edge leaves them. No quit state can be reached.
pub proof fn law_numbering(source: spec_fn(u32) -> Row, start: u32, order: Seq<u32>)
    requires
        numbering(source, start) == Ok::<Seq<u32>, crate::regex_dfa::Rejection>(order),
    ensures
        order.len() > 0,
        order[0] == start,
        order.no_duplicates(),
        order.len() <= GPU_STATE_LIMIT,
        order.len() * ROW_BYTES <= GPU_TABLE_LIMIT,
        forall|i: int| 0 <= i < order.len() ==> is_closed(source(#[trigger] order[i]), order),
        forall|j: int|
            #![trigger order[j]]
            0 < j < order.len() ==> exists|i: int|
                0 <= i < j && leads_to(source(#[trigger] order[i]), order[j]),
{
    let rows = (GPU_TABLE_LIMIT / ROW_BYTES + 1) as nat;
    lemma_explore(source, start, rows);
}

/// A compact table has one row of entries for each state, and fits the limit.
pub proof fn law_table_size(
    table: GpuRegexDfa,
    source: spec_fn(u32) -> Row,
    start: u32,
    order: Seq<u32>,
)
    requires
        numbering(source, start) == Ok::<Seq<u32>, crate::regex_dfa::Rejection>(order),
        table.is_table_of(source, order),
    ensures
        4 * table.transitions@.len() + 4 * table.equals@.len() + table.eoi_match@.len()
            == table.state_count * ROW_BYTES,
        table.state_count * ROW_BYTES <= GPU_TABLE_LIMIT,
        table.state_count <= GPU_STATE_LIMIT,
{
    law_numbering(source, start, order);
}

/// Whether a search of the source DFA that has come to `state` finds a match
/// in the rest of the haystack.
pub open spec fn source_accepts(
    source: spec_fn(u32) -> Row,
    state: u32,
    haystack: Seq<u8>,
) -> bool
    decreases haystack.len(),
{
    if haystack.len() == 0 {
        source(state).eoi.matching
    } else {
        let edge = source(state).edges[symbol_of(haystack[0])];
        edge.matching || (!edge.dead && source_accepts(source, edge.state, haystack.drop_first()))
    }
}

/// One step of a table follows the edge that the entry stands for.
proof fn lemma_step(
    table: GpuRegexDfa,
    source: spec_fn(u32) -> Row,
    order: Seq<u32>,
    state: int,
    byte: u8,
)
    requires
        table.is_table_of(source, order),
        order.len() <= GPU_STATE_LIMIT,
        0 <= state < order.len(),
        is_symbol(byte),
    ensures
        table.has_entry(state, byte),
        encodes(table.entry(state, byte), source(order[state]).edges[symbol_of(byte)], order),
        0 <= symbol_of(byte) < SYMBOLS,
{
    let rows = order.map_values(|state: u32| source(state));
    assert(rows[state] == source(order[state]));
    if byte != PADDING {
        let k = sextet_of(byte);
        assert(0 <= k < 64 && alphabet_byte(k) == byte);
        let edge = rows[state].edges[k];
        assert(encodes(table.transitions@[64 * state + k], edge, order));
    } else {
        assert(encodes(table.equals@[state], rows[state].edges[64], order));
    }
}

/// A search of a compact table reads only entries that exist, never comes to a
/// state without a number, and on symbols finds a match exactly where the
/// source DFA does.
pub proof fn law_table_simulates(
    table: GpuRegexDfa,
    source: spec_fn(u32) -> Row,
    start: u32,
    order: Seq<u32>,
    state: int,
    haystack: Seq<u8>,
)
    requires
        numbering(source, start) == Ok::<Seq<u32>, crate::regex_dfa::Rejection>(order),
        table.is_table_of(source, order),
        has_full_rows(source),
        0 <= state < order.len(),
    ensures
        table.can_search(state, haystack),
        table.search(state, haystack) != Err::<bool, GpuRegexError>(GpuRegexError::InvalidState),
        (forall|i: int| 0 <= i < haystack.len() ==> is_symbol(#[trigger] haystack[i]))
            ==> table.search(state, haystack) == Ok::<bool, GpuRegexError>(
            source_accepts(source, order[state], haystack),
        ),
    decreases haystack.len(),
{
    law_numbering(source, start, order);
    let rows = order.map_values(|state: u32| source(state));
    assert(rows[state] == source(order[state]));
    if haystack.len() == 0 {
        assert(table.eoi_match@[state] == (if rows[state].eoi.matching {
            1u8
        } else {
            0u8
        }));
    } else if is_symbol(haystack[0]) {
        let byte = haystack[0];
        let entry = table.entry(state, byte);
        let row = source(order[state]);
        let edge = row.edges[symbol_of(byte)];
        lemma_step(table, source, order, state, byte);
        if edge.is_live() {
            assert(is_closed(source(order[state]), order));
            let rest = haystack.drop_first();
            assert(entry < order.len());
            assert(target(entry) == entry);
            law_table_simulates(table, source, start, order, entry as int, rest);
            if forall|i: int| 0 <= i < haystack.len() ==> is_symbol(#[trigger] haystack[i]) {
                assert forall|i: int| 0 <= i < rest.len() implies is_symbol(
                    #[trigger] rest[i],
                ) by {
                    assert(rest[i] == haystack[i + 1]);
                }
            }
        }
    }
}

/// The rows of a dense DFA accept what the DFA accepts.
proof fn lemma_dense_rows(dfa: dense::DFA<Vec<u32>>, state: u32, haystack: Seq<u8>)
    requires
        forall|i: int| 0 <= i < haystack.len() ==> is_symbol(#[trigger] haystack[i]),
    ensures
        source_accepts(dense_rows(dfa), state, haystack) == dense_accepts(dfa, state, haystack),
    decreases haystack.len(),
{
    if haystack.len() > 0 {
        let byte = haystack[0];
        let rest = haystack.drop_first();
        let symbol = symbol_of(byte);
        assert(is_symbol(byte));
        if byte != PADDING {
            assert(0 <= symbol < 64 && alphabet_byte(symbol) == byte);
        }
        assert(symbol_byte(symbol) == byte);
        assert(dense_row(dfa, state).edges[symbol].state == dense_next(dfa, state, byte));
        assert forall|i: int| 0 <= i < rest.len() implies is_symbol(#[trigger] rest[i]) by {
            assert(rest[i] == haystack[i + 1]);
        }
        lemma_dense_rows(dfa, dense_next(dfa, state, byte), rest);
    }
}

/// A compiled table can search every haystack, and on Base64 text finds a
/// match exactly where the dense DFA of the pattern does.
pub proof fn law_compiled_table(
    pattern: Seq<char>,
    case_sensitive: bool,
    table: GpuRegexDfa,
    haystack: Seq<u8>,
)
    requires
        is_compiled(pattern, case_sensitive, Ok(table)),
    ensures
        table.can_search(0, haystack),
        table.state_count <= GPU_STATE_LIMIT,
        4 * table.transitions@.len() + 4 * table.equals@.len() + table.eoi_match@.len()
            == table.state_count * ROW_BYTES,
        table.state_count * ROW_BYTES <= GPU_TABLE_LIMIT,
        built_dense_dfa(pattern, table_options(case_sensitive)) matches Ok(dfa) && dense_start(
            dfa,
            Seq::empty(),
        ) matches Ok(start) && ((forall|i: int|
            0 <= i < haystack.len() ==> is_symbol(#[trigger] haystack[i])) ==> table.search(
            0,
            haystack,
        ) == Ok::<bool, GpuRegexError>(dense_accepts(dfa, start, haystack))),
{
    let dfa = built_dense_dfa(pattern, table_options(case_sensitive))->Ok_0;
    let start = dense_start(dfa, Seq::empty())->Ok_0;
    let source = dense_rows(dfa);
    let order = numbering(source, start)->Ok_0;
    law_numbering(source, start, order);
    law_table_size(table, source, start, order);
    law_table_simulates(table, source, start, order, 0, haystack);
    if forall|i: int| 0 <= i < haystack.len() ==> is_symbol(#[trigger] haystack[i]) {
        lemma_dense_rows(dfa, start, haystack);
    }
}

/// A compiled table gives, on every Base64 text, the answer that the `regex`
/// engine gives for the same pattern and the same case behavior.
pub proof fn law_table_matches_like_regex(
    pattern: Seq<char>,
    case_sensitive: bool,
    table: GpuRegexDfa,
    regex: regex::bytes::Regex,
    haystack: Seq<u8>,
)
    requires
        is_compiled(pattern, case_sensitive, Ok(table)),
        built_regex(pattern, !case_sensitive) == Ok::<regex::bytes::Regex, regex::Error>(regex),
        forall|i: int| 0 <= i < haystack.len() ==> is_symbol(#[trigger] haystack[i]),
    ensures
        table.search(0, haystack) == Ok::<bool, GpuRegexError>(regex_matches(regex, haystack)),
{
    law_compiled_table(pattern, case_sensitive, table, haystack);
    assert forall|i: int| 0 <= i < haystack.len() implies #[trigger] haystack[i] < 128 by {
        assert(is_symbol(haystack[i]));
        if haystack[i] != PADDING {
            lemma_alphabet(sextet_of(haystack[i]));
        }
    }
    let dfa = built_dense_dfa(pattern, table_options(case_sensitive))->Ok_0;
    let start = dense_start(dfa, Seq::empty())->Ok_0;
    assert(finds_like_regex(dfa, pattern, !case_sensitive));
    assert(is_ascii_text(haystack));
    assert(regex_matches(regex, haystack) == dense_accepts(dfa, start, haystack));
}

/// A regular expression is searched for on the device as on the host: where the
/// pattern has been prepared as a table, the table answers for every range of
/// an encoded key as the pattern itself does.
pub proof fn law_prepared_regex_agrees(
    pattern: Pattern,
    table: GpuRegexDfa,
    key: Seq<u8>,
    start: int,
    end: int,
)
    requires
        pattern.wf(),
        pattern.kind is Regex,
        is_compiled(pattern.source, pattern.case_sensitive, Ok(table)),
        key.len() == KEY_BYTES,
        0 <= start <= end <= 44,
    ensures
        table.can_search(0, base64_of(key).subrange(start, end)),
        table.search(0, base64_of(key).subrange(start, end)) == Ok::<bool, GpuRegexError>(
            pattern.matches(base64_of(key), start, end),
        ),
{
    let text = base64_of(key);
    let part = text.subrange(start, end);
    law_keys_are_searchable(pattern.source, pattern.case_sensitive, table, key, start, end);
    law_key_text_shape(key);
    assert forall|i: int| 0 <= i < part.len() implies is_symbol(#[trigger] part[i]) by {
        assert(part[i] == text[start + i]);
    }
    law_table_matches_like_regex(
        pattern.source,
        pattern.case_sensitive,
        table,
        pattern.regex->0,
        part,
    );
}

/// The table that is shared.
spec fn shared_table(shared: std::sync::Arc<GpuRegexDfa>) -> GpuRegexDfa {
    *shared
}

/// What a well-formed regular expression is prepared as agrees with it: the
/// table answers for every range of an encoded key as the pattern does on the
/// host, which is as the engine does with the case behavior of the pattern.
pub proof fn law_gpu_pattern_agrees(
    pattern: Pattern,
    prepared: Result<GpuPattern, GpuRegexError>,
    key: Seq<u8>,
    start: int,
    end: int,
)
    requires
        pattern.wf(),
        pattern.kind is Regex,
        is_prepared(pattern, prepared),
        key.len() == KEY_BYTES,
        0 <= start <= end <= 44,
    ensures
        prepared matches Ok(device) ==> {
            &&& device matches GpuPattern::Regex(table)
            &&& table.can_search(0, base64_of(key).subrange(start, end))
            &&& table.search(0, base64_of(key).subrange(start, end)) == Ok::<bool, GpuRegexError>(
                pattern.matches(base64_of(key), start, end),
            )
            &&& table.search(0, base64_of(key).subrange(start, end)) == Ok::<bool, GpuRegexError>(
                regex_matches(
                    built_regex(pattern.source, !pattern.case_sensitive)->Ok_0,
                    base64_of(key).subrange(start, end),
                ),
            )
        },
{
    if let Ok(GpuPattern::Regex(table)) = prepared {
        law_prepared_regex_agrees(pattern, shared_table(table), key, start, end);
    }
}

/// A well-formed literal or glob is prepared as its own bytes, compared as on
/// the host: as they stand where case matters, else in small letters.
pub proof fn law_gpu_text_agrees(pattern: Pattern, prepared: Result<GpuPattern, GpuRegexError>)
    requires
        pattern.wf(),
        is_prepared(pattern, prepared),
    ensures
        pattern.kind is Literal ==> (prepared matches Ok(
            GpuPattern::Literal { bytes, case_sensitive },
        ) && bytes@ == normalized(encode_utf8(pattern.source), pattern.case_sensitive)
            && case_sensitive == pattern.case_sensitive),
        pattern.kind is Glob ==> (prepared matches Ok(GpuPattern::Glob { bytes, case_sensitive })
            && bytes@ == normalized(encode_utf8(pattern.source), pattern.case_sensitive)
            && case_sensitive == pattern.case_sensitive),
{
}

/// Every part of an encoded key consists of symbols, so a compiled table gives
/// an answer for it.
pub proof fn law_keys_are_searchable(
    pattern: Seq<char>,
    case_sensitive: bool,
    table: GpuRegexDfa,
    key: Seq<u8>,
    start: int,
    end: int,
)
    requires
        is_compiled(pattern, case_sensitive, Ok(table)),
        key.len() == KEY_BYTES,
        0 <= start <= end <= 44,
    ensures
        table.can_search(0, base64_of(key).subrange(start, end)),
        table.search(0, base64_of(key).subrange(start, end)) is Ok,
{
    let text = base64_of(key);
    let part = text.subrange(start, end);
    law_key_text_shape(key);
    assert forall|i: int| 0 <= i < part.len() implies is_symbol(#[trigger] part[i]) by {
        assert(part[i] == text[start + i]);
    }
    law_compiled_table(pattern, case_sensitive, table, part);
}

} // verus!
