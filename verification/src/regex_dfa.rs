//! A bounded, Base64-specialized DFA for CUDA regex matching.

use crate::dense::{
    build_dense_dfa, build_error_text, built_dense_dfa, dense_eoi, dense_is_match, dense_is_quit,
    dense_next, dense_start, dense_states, display_build_error, display_match_error,
    finds_like_regex, is_dead_state, is_match_state, is_quit_state, match_error_text, next_eoi_state, next_state,
    start_state_forward, DfaOptions,
};
use crate::encoding::{alphabet, alphabet_byte, in_alphabet, sextet, sextet_of, PADDING};
use crate::text::{append_decimal, append_hex, decimal_text, hex_text};
use regex_automata::dfa::dense;
use std::collections::{HashMap, VecDeque};
use vstd::prelude::*;
use vstd::string::*;
use vstd::utf8::encode_utf8;

verus! {

broadcast use vstd::std_specs::hash::group_hash_axioms;

/// A transition that accepts immediately.
pub const DFA_MATCH: u32 = 0x8000_0000;

/// A transition that cannot match.
pub const DFA_DEAD: u32 = 0x4000_0000;

/// Mask for a compact DFA state ID.
pub const DFA_STATE_MASK: u32 = 0x3fff_ffff;

/// Length in bytes of the longest pattern that is compiled.
pub const PATTERN_MAX_BYTES: usize = 4096;

/// Limit on the memory used while determinizing, in bytes.
pub const DETERMINIZE_SIZE_LIMIT: usize = 33_554_432;

/// Limit on the size of the dense DFA, in bytes.
pub const DFA_SIZE_LIMIT: usize = 33_554_432;

/// Largest number of compact states.
pub const GPU_STATE_LIMIT: usize = 4096;

/// Largest size of the compact tables, in bytes.
pub const GPU_TABLE_LIMIT: usize = 1_048_576;

/// Number of symbols that lead out of a state: the alphabet and the padding.
pub const SYMBOLS: usize = 65;

/// Size in bytes of the table entries of one state: one word for each symbol
/// and one byte for the end of the input.
pub const ROW_BYTES: usize = 261;

/// Errors raised while compiling a regex for the CUDA DFA backend.
#[derive(Clone, Debug, Eq, PartialEq)]
pub enum GpuRegexError {
    /// The regex is empty; CUDA matching requires at least one input byte.
    EmptyPattern,
    /// The pattern exceeds the host-side input limit.
    PatternTooLong,
    /// The regex parser or DFA builder rejected the pattern.
    Compile(String),
    /// The compact DFA exceeds the state limit.
    TooManyStates {
        /// Number of compact states requested.
        states: usize,
        /// Maximum number of compact states.
        limit: usize,
    },
    /// The compact transition table exceeds the upload limit.
    TableTooLarge {
        /// Number of bytes requested.
        bytes: usize,
        /// Maximum table size.
        limit: usize,
    },
    /// A quit state was reachable while compacting the DFA.
    QuitStateReachable,
    /// The DFA contained an unsupported transition state.
    InvalidState,
    /// An input byte is not part of the Base64 alphabet.
    InvalidInput(u8),
}

impl GpuRegexError {
    /// The text that [`GpuRegexError::message`] gives.
    pub open spec fn message_text(self) -> Seq<char> {
        match self {
            GpuRegexError::EmptyPattern => "empty regexes are not supported by CUDA"@,
            GpuRegexError::PatternTooLong => "regex exceeds the "@ + decimal_text(
                PATTERN_MAX_BYTES as nat,
            ) + "-byte limit"@,
            GpuRegexError::Compile(error) => "regex DFA compilation failed: "@ + error@,
            GpuRegexError::TooManyStates { states, limit } => "compact DFA has "@ + decimal_text(
                states as nat,
            ) + " states; limit is "@ + decimal_text(limit as nat),
            GpuRegexError::TableTooLarge { bytes, limit } => "compact DFA requires "@
                + decimal_text(bytes as nat) + " bytes; limit is "@ + decimal_text(limit as nat),
            GpuRegexError::QuitStateReachable => "DFA quit state is reachable"@,
            GpuRegexError::InvalidState => "DFA contains an invalid state"@,
            GpuRegexError::InvalidInput(byte) => "input byte 0x"@ + hex_text(byte)
                + " is not Base64"@,
        }
    }

    /// Describes the error in one line.
    pub fn message(&self) -> (text: String)
        ensures
            text@ == self.message_text(),
            match *self {
                GpuRegexError::EmptyPattern => text@ == "empty regexes are not supported by CUDA"@,
                GpuRegexError::PatternTooLong => text@ == "regex exceeds the "@ + decimal_text(
                    PATTERN_MAX_BYTES as nat,
                ) + "-byte limit"@,
                GpuRegexError::Compile(error) => text@ == "regex DFA compilation failed: "@ + error@,
                GpuRegexError::TooManyStates { states, limit } => text@ == "compact DFA has "@ + decimal_text(
                    states as nat,
                ) + " states; limit is "@ + decimal_text(limit as nat),
                GpuRegexError::TableTooLarge { bytes, limit } => text@ == "compact DFA requires "@
                    + decimal_text(bytes as nat) + " bytes; limit is "@ + decimal_text(limit as nat),
                GpuRegexError::QuitStateReachable => text@ == "DFA quit state is reachable"@,
                GpuRegexError::InvalidState => text@ == "DFA contains an invalid state"@,
                GpuRegexError::InvalidInput(byte) => text@ == "input byte 0x"@ + hex_text(byte)
                    + " is not Base64"@,
            },
    {
        let mut text = String::new();
        match self {
            GpuRegexError::EmptyPattern => text.append("empty regexes are not supported by CUDA"),
            GpuRegexError::PatternTooLong => {
                text.append("regex exceeds the ");
                append_decimal(&mut text, PATTERN_MAX_BYTES as u64);
                text.append("-byte limit");
            },
            GpuRegexError::Compile(error) => {
                text.append("regex DFA compilation failed: ");
                text.append(error.as_str());
            },
            GpuRegexError::TooManyStates { states, limit } => {
                text.append("compact DFA has ");
                append_decimal(&mut text, *states as u64);
                text.append(" states; limit is ");
                append_decimal(&mut text, *limit as u64);
            },
            GpuRegexError::TableTooLarge { bytes, limit } => {
                text.append("compact DFA requires ");
                append_decimal(&mut text, *bytes as u64);
                text.append(" bytes; limit is ");
                append_decimal(&mut text, *limit as u64);
            },
            GpuRegexError::QuitStateReachable => text.append("DFA quit state is reachable"),
            GpuRegexError::InvalidState => text.append("DFA contains an invalid state"),
            GpuRegexError::InvalidInput(byte) => {
                text.append("input byte 0x");
                append_hex(&mut text, *byte);
                text.append(" is not Base64");
            },
        }
        assert(text@ =~= self.message_text());
        text
    }
}

/// A compact forward DFA operating on the 64-character Base64 alphabet.
#[derive(Clone, Debug)]
pub struct GpuRegexDfa {
    /// State-major transitions indexed as `state * 64 + sextet`.
    pub transitions: Vec<u32>,
    /// Transition used for the final Base64 padding byte `=`.
    pub equals: Vec<u32>,
    /// Whether the EOI transition from each state accepts.
    pub eoi_match: Vec<u8>,
    /// Number of compact states. State zero is always the start state.
    pub state_count: u32,
}

/// Where a transition of the source DFA leads.
#[derive(Clone, Copy, Debug, Eq, PartialEq, Structural)]
pub struct Edge {
    /// Identifier of the state in the source DFA.
    pub state: u32,
    /// Whether it is a match state.
    pub matching: bool,
    /// Whether it is the dead state.
    pub dead: bool,
    /// Whether it is a quit state.
    pub quit: bool,
}

impl Edge {
    /// Whether the search goes on in the state that the edge leads to.
    pub open spec fn is_live(self) -> bool {
        !self.matching && !self.dead
    }
}

/// The transitions out of one state of the source DFA.
#[derive(Clone, Debug)]
pub struct StateRow {
    /// One edge for each character of the alphabet, in its order, then one for
    /// the padding byte.
    pub edges: Vec<Edge>,
    /// The edge for the end of the input.
    pub eoi: Edge,
}

/// The model of a [`StateRow`].
#[verifier::ext_equal]
pub struct Row {
    /// One edge for each symbol.
    pub edges: Seq<Edge>,
    /// The edge for the end of the input.
    pub eoi: Edge,
}

impl View for StateRow {
    type V = Row;

    open spec fn view(&self) -> Row {
        Row { edges: self.edges@, eoi: self.eoi }
    }
}

/// Why a source DFA has no compact table.
pub enum Rejection {
    /// A quit state can be reached.
    Quit,
    /// There is a state for which no number is left.
    TooManyStates,
    /// The rows read so far do not fit the table.
    TableTooLarge {
        /// Number of rows read so far.
        rows: nat,
    },
}

impl Rejection {
    /// The error that reports the rejection.
    pub open spec fn error(self) -> GpuRegexError {
        match self {
            Rejection::Quit => GpuRegexError::QuitStateReachable,
            Rejection::TooManyStates => GpuRegexError::TooManyStates {
                states: (GPU_STATE_LIMIT + 1) as usize,
                limit: GPU_STATE_LIMIT,
            },
            Rejection::TableTooLarge { rows } => GpuRegexError::TableTooLarge {
                bytes: (rows * ROW_BYTES) as usize,
                limit: GPU_TABLE_LIMIT,
            },
        }
    }
}

/// The numbered states after one more edge: a live state that has no number
/// yet gets the next one.
pub open spec fn number_edge(edge: Edge, order: Seq<u32>) -> Result<Seq<u32>, Rejection> {
    if !edge.is_live() {
        Ok(order)
    } else if edge.quit {
        Err(Rejection::Quit)
    } else if order.contains(edge.state) {
        Ok(order)
    } else if order.len() >= GPU_STATE_LIMIT {
        Err(Rejection::TooManyStates)
    } else {
        Ok(order.push(edge.state))
    }
}

/// The numbered states after the edges have been followed, first to last.
pub open spec fn number_edges(edges: Seq<Edge>, order: Seq<u32>) -> Result<Seq<u32>, Rejection>
    decreases edges.len(),
{
    if edges.len() == 0 {
        Ok(order)
    } else {
        match number_edges(edges.drop_last(), order) {
            Err(rejection) => Err(rejection),
            Ok(reached) => number_edge(edges.last(), reached),
        }
    }
}

/// The numbered states after one more row, the `number`-th to be read.
pub open spec fn number_row(row: Row, number: nat, order: Seq<u32>) -> Result<Seq<u32>, Rejection> {
    match number_edges(row.edges, order) {
        Err(rejection) => Err(rejection),
        Ok(reached) => if row.eoi.quit {
            Err(Rejection::Quit)
        } else if number * ROW_BYTES > GPU_TABLE_LIMIT {
            Err(Rejection::TableTooLarge { rows: number })
        } else {
            Ok(reached)
        },
    }
}

/// The numbered states after the rows of the first `count` of them have been
/// read in the order of their numbers, beginning with `start`.
pub open spec fn explore(source: spec_fn(u32) -> Row, start: u32, count: nat) -> Result<
    Seq<u32>,
    Rejection,
>
    decreases count,
{
    if count == 0 {
        Ok(seq![start])
    } else {
        match explore(source, start, (count - 1) as nat) {
            Err(rejection) => Err(rejection),
            Ok(order) => if order.len() < count {
                Ok(order)
            } else {
                number_row(source(order[count - 1]), count, order)
            },
        }
    }
}

/// The states that a search from `start` can visit, each at the index that is
/// its compact number, or why there is no compact table.
///
/// Every table that is not finished once its size exceeds the limit is
/// rejected, so no more rows than these are ever read.
pub open spec fn numbering(source: spec_fn(u32) -> Row, start: u32) -> Result<Seq<u32>, Rejection> {
    explore(source, start, (GPU_TABLE_LIMIT / ROW_BYTES + 1) as nat)
}

/// Whether a table entry stands for an edge, given the numbered states.
pub open spec fn encodes(entry: u32, edge: Edge, order: Seq<u32>) -> bool {
    if edge.matching {
        entry == DFA_MATCH
    } else if edge.dead {
        entry == DFA_DEAD
    } else {
        entry < order.len() && order[entry as int] == edge.state
    }
}

/// Whether the three tables hold the rows, given the numbered states.
pub open spec fn tables_hold(
    transitions: Seq<u32>,
    equals: Seq<u32>,
    eoi_match: Seq<u8>,
    rows: Seq<Row>,
    order: Seq<u32>,
) -> bool {
    &&& transitions.len() == 64 * rows.len()
    &&& equals.len() == rows.len()
    &&& eoi_match.len() == rows.len()
    &&& forall|i: int, k: int|
        #![trigger rows[i].edges[k]]
        0 <= i < rows.len() && 0 <= k < 64 ==> encodes(
            transitions[64 * i + k],
            rows[i].edges[k],
            order,
        )
    &&& forall|i: int|
        #![trigger equals[i]]
        0 <= i < rows.len() ==> encodes(equals[i], rows[i].edges[64], order)
    &&& forall|i: int|
        #![trigger eoi_match[i]]
        0 <= i < rows.len() ==> eoi_match[i] == (if rows[i].eoi.matching {
            1u8
        } else {
            0u8
        })
}

impl GpuRegexDfa {
    /// Whether this is the compact table of the rows of the numbered states.
    pub open spec fn is_table_of(self, source: spec_fn(u32) -> Row, order: Seq<u32>) -> bool {
        &&& self.state_count == order.len()
        &&& tables_hold(
            self.transitions@,
            self.equals@,
            self.eoi_match@,
            order.map_values(|state: u32| source(state)),
            order,
        )
    }
}


/// Whether the map holds the number of each numbered state.
pub open spec fn numbers_of(compact: Map<u32, u32>, order: Seq<u32>) -> bool {
    &&& order.no_duplicates()
    &&& compact.len() == order.len()
    &&& forall|i: int|
        #![trigger order[i]]
        0 <= i < order.len() ==> compact.contains_key(order[i]) && compact[order[i]] == i
    &&& forall|state: u32| #[trigger]
        compact.contains_key(state) ==> order.contains(state)
}

/// Encodes one transition, and numbers the state that it leads to where that
/// is a live state without a number.
pub fn encode_transition(
    edge: Edge,
    compact: &mut HashMap<u32, u32>,
    queue: &mut VecDeque<u32>,
) -> (result: Result<u32, GpuRegexError>)
    requires
        old(compact)@.len() < usize::MAX,
    ensures
        ({
            let known = old(compact)@;
            if edge.matching {
                result == Ok::<u32, GpuRegexError>(DFA_MATCH)
            } else if edge.dead {
                result == Ok::<u32, GpuRegexError>(DFA_DEAD)
            } else if edge.quit {
                result == Err::<u32, GpuRegexError>(GpuRegexError::QuitStateReachable)
            } else if known.contains_key(edge.state) {
                result == Ok::<u32, GpuRegexError>(known[edge.state])
            } else if known.len() > u32::MAX {
                result == Err::<u32, GpuRegexError>(GpuRegexError::InvalidState)
            } else if known.len() >= GPU_STATE_LIMIT {
                result == Err::<u32, GpuRegexError>(
                    GpuRegexError::TooManyStates {
                        states: (known.len() + 1) as usize,
                        limit: GPU_STATE_LIMIT,
                    },
                )
            } else {
                result == Ok::<u32, GpuRegexError>(known.len() as u32)
            }
        }),
        edge.is_live() && !edge.quit && !old(compact)@.contains_key(edge.state)
            && old(compact)@.len() < GPU_STATE_LIMIT ==> {
            &&& final(compact)@ == old(compact)@.insert(edge.state, old(compact)@.len() as u32)
            &&& final(queue)@ == old(queue)@.push(edge.state)
        },
        !(edge.is_live() && !edge.quit && !old(compact)@.contains_key(edge.state)
            && old(compact)@.len() < GPU_STATE_LIMIT) ==> {
            &&& final(compact)@ == old(compact)@
            &&& final(queue)@ == old(queue)@
        },
{
    if edge.matching {
        return Ok(DFA_MATCH);
    }
    if edge.dead {
        return Ok(DFA_DEAD);
    }
    if edge.quit {
        return Err(GpuRegexError::QuitStateReachable);
    }
    if let Some(id) = compact.get(&edge.state) {
        return Ok(*id);
    }
    let count: usize = compact.len();
    if count > u32::MAX as usize {
        return Err(GpuRegexError::InvalidState);
    }
    let id: u32 = count as u32;
    if id >= GPU_STATE_LIMIT as u32 || id >= DFA_STATE_MASK {
        return Err(GpuRegexError::TooManyStates { states: count + 1, limit: GPU_STATE_LIMIT });
    }
    compact.insert(edge.state, id);
    queue.push_back(edge.state);
    Ok(id)
}

/// A rejected edge rejects every longer run of edges.
proof fn lemma_rejected_prefix(edges: Seq<Edge>, count: int, order: Seq<u32>)
    requires
        0 <= count <= edges.len(),
        number_edges(edges.take(count), order) is Err,
    ensures
        number_edges(edges, order) == number_edges(edges.take(count), order),
    decreases edges.len() - count,
{
    if count == edges.len() {
        assert(edges.take(count) =~= edges);
    } else {
        assert(edges.take(count + 1).drop_last() =~= edges.take(count));
        lemma_rejected_prefix(edges, count + 1, order);
    }
}

/// An entry still stands for its edge when more states are numbered.
proof fn lemma_encodes_extended(entry: u32, edge: Edge, order: Seq<u32>, longer: Seq<u32>)
    requires
        encodes(entry, edge, order),
        order.is_prefix_of(longer),
    ensures
        encodes(entry, edge, longer),
{
}

/// Following one edge keeps the map of numbers in step with the order.
proof fn lemma_numbers_kept(compact: Map<u32, u32>, order: Seq<u32>, state: u32)
    requires
        numbers_of(compact, order),
        compact.dom().finite(),
        !compact.contains_key(state),
        order.len() < GPU_STATE_LIMIT,
    ensures
        numbers_of(compact.insert(state, order.len() as u32), order.push(state)),
        !order.contains(state),
{
    let longer = order.push(state);
    let updated = compact.insert(state, order.len() as u32);
    assert forall|i: int| #![trigger order[i]] 0 <= i < order.len() implies order[i] != state by {
        assert(compact.contains_key(order[i]));
    }
    assert forall|i: int| #![trigger longer[i]] 0 <= i < longer.len() implies updated.contains_key(
        longer[i],
    ) && updated[longer[i]] == i by {
        if i < order.len() {
            assert(longer[i] == order[i]);
        }
    }
    assert forall|other: u32| #[trigger] updated.contains_key(other) implies longer.contains(
        other,
    ) by {
        if other == state {
            assert(longer[order.len() as int] == state);
        } else {
            assert(compact.contains_key(other));
            let i = choose|i: int| 0 <= i < order.len() && order[i] == other;
            assert(longer[i] == other);
        }
    }
}

/// Reads a source DFA row by row into a compact table.
///
/// States are numbered in the order in which edges first lead to them, and
/// their rows are read in the order of their numbers.
pub struct Compactor {
    compact: HashMap<u32, u32>,
    queue: VecDeque<u32>,
    transitions: Vec<u32>,
    equals: Vec<u32>,
    eoi_match: Vec<u8>,
    order: Ghost<Seq<u32>>,
    rows: Ghost<Seq<Row>>,
}

impl Compactor {
    /// The numbered states, each at the index that is its number.
    pub closed spec fn order(&self) -> Seq<u32> {
        self.order@
    }

    /// The rows read so far.
    pub closed spec fn rows(&self) -> Seq<Row> {
        self.rows@
    }

    /// The invariant: the map holds the numbers, the queue the states whose
    /// rows are not read yet, and the tables the rows that are.
    pub closed spec fn wf(&self) -> bool {
        &&& numbers_of(self.compact@, self.order@)
        &&& 0 < self.order@.len() <= GPU_STATE_LIMIT
        &&& self.rows@.len() <= self.order@.len()
        &&& self.rows@.len() * ROW_BYTES <= GPU_TABLE_LIMIT
        &&& self.queue@ == self.order@.skip(self.rows@.len() as int)
        &&& tables_hold(
            self.transitions@,
            self.equals@,
            self.eoi_match@,
            self.rows@,
            self.order@,
        )
    }

    /// The bounds that every compactor keeps.
    pub proof fn lemma_bounds(&self)
        requires
            self.wf(),
        ensures
            self.order().no_duplicates(),
            0 < self.order().len() <= GPU_STATE_LIMIT,
            self.rows().len() <= self.order().len(),
            self.rows().len() * ROW_BYTES <= GPU_TABLE_LIMIT,
    {
    }

    /// Begins with the start state, which gets the number zero.
    pub fn new(start: u32) -> (compactor: Self)
        ensures
            compactor.wf(),
            compactor.order() == seq![start],
            compactor.rows() == Seq::<Row>::empty(),
    {
        let mut compact: HashMap<u32, u32> = HashMap::new();
        let mut queue: VecDeque<u32> = VecDeque::new();
        proof {
            assert(numbers_of(compact@, Seq::<u32>::empty()));
            lemma_numbers_kept(compact@, Seq::<u32>::empty(), start);
            assert(Seq::<u32>::empty().push(start) =~= seq![start]);
        }
        compact.insert(start, 0);
        queue.push_back(start);
        let ghost order = seq![start];
        assert(queue@ =~= order.skip(0));
        Compactor {
            compact,
            queue,
            transitions: Vec::new(),
            equals: Vec::new(),
            eoi_match: Vec::new(),
            order: Ghost(order),
            rows: Ghost(Seq::empty()),
        }
    }

    /// The state whose row is to be read next, unless all have been read.
    pub fn next_state(&self) -> (state: Option<u32>)
        requires
            self.wf(),
        ensures
            state == (if self.rows().len() < self.order().len() {
                Some(self.order()[self.rows().len() as int])
            } else {
                None
            }),
    {
        if self.queue.len() == 0 {
            None
        } else {
            Some(self.queue[0])
        }
    }

    /// Reads the row of the next state.
    pub fn with_row(self, row: &StateRow) -> (result: Result<Self, GpuRegexError>)
        requires
            self.wf(),
            self.rows().len() < self.order().len(),
            row@.edges.len() == SYMBOLS,
        ensures
            match number_row(row@, self.rows().len() + 1, self.order()) {
                Err(rejection) => result == Err::<Self, GpuRegexError>(rejection.error()),
                Ok(order) => result matches Ok(next) && next.wf() && next.order() == order
                    && next.rows() == self.rows().push(row@),
            },
    {
        let mut compact = self.compact;
        let mut queue = self.queue;
        let mut transitions = self.transitions;
        let mut equals = self.equals;
        let mut eoi_match = self.eoi_match;
        let ghost known = self.order@;
        let ghost rows = self.rows@;
        let ghost mut order = known;
        let ghost edges = row.edges@;
        let done: usize = eoi_match.len();
        queue.pop_front();
        assert(queue@ =~= known.skip(rows.len() as int + 1));
        let mut k: usize = 0;
        assert(edges.take(0) =~= Seq::empty());
        while k < SYMBOLS
            invariant
                k <= SYMBOLS == edges.len(),
                edges == row.edges@,
                known == self.order@,
                rows == self.rows@,
                done == rows.len() < known.len(),
                known.is_prefix_of(order),
                numbers_of(compact@, order),
                order.len() <= GPU_STATE_LIMIT,
                number_edges(edges.take(k as int), known) == Ok::<Seq<u32>, Rejection>(order),
                queue@ == order.skip(rows.len() as int + 1),
                transitions@.len() == 64 * done + (if k < 64 {
                    k as int
                } else {
                    64
                }),
                equals@.len() == done + (if k < 65 {
                    0int
                } else {
                    1
                }),
                self.transitions@.is_prefix_of(transitions@),
                self.equals@.is_prefix_of(equals@),
                self.transitions@.len() == 64 * done,
                self.equals@.len() == done,
                forall|j: int|
                    0 <= j < k && j < 64 ==> encodes(
                        transitions@[64 * done + j],
                        #[trigger] edges[j],
                        order,
                    ),
                k == 65 ==> encodes(equals@[done as int], edges[64], order),
            decreases SYMBOLS - k,
        {
            let edge = row.edges[k];
            let ghost before = order;
            let ghost numbered = compact@;
            proof {
                assert(edges.take(k as int + 1).drop_last() =~= edges.take(k as int));
                assert(edges.take(k as int + 1).last() == edge);
                assert(compact@.contains_key(edge.state) <==> order.contains(edge.state));
            }
            match encode_transition(edge, &mut compact, &mut queue) {
                Err(error) => {
                    proof {
                        lemma_rejected_prefix(edges, k as int + 1, known);
                    }
                    return Err(error);
                },
                Ok(entry) => {
                    proof {
                        if edge.is_live() && !numbered.contains_key(edge.state) {
                            lemma_numbers_kept(numbered, before, edge.state);
                            order = before.push(edge.state);
                            assert(queue@ =~= order.skip(rows.len() as int + 1));
                        }
                        assert(before.is_prefix_of(order));
                        assert(encodes(entry, edge, order));
                        assert forall|j: int| 0 <= j < k && j < 64 implies encodes(
                            transitions@[64 * done + j],
                            #[trigger] edges[j],
                            order,
                        ) by {
                            lemma_encodes_extended(
                                transitions@[64 * done + j],
                                edges[j],
                                before,
                                order,
                            );
                        }
                    }
                    if k < 64 {
                        transitions.push(entry);
                    } else {
                        equals.push(entry);
                    }
                },
            }
            k += 1;
        }
        assert(edges.take(65) =~= edges);
        if row.eoi.quit {
            return Err(GpuRegexError::QuitStateReachable);
        }
        eoi_match.push(if row.eoi.matching {
            1
        } else {
            0
        });
        let table_bytes: usize = transitions.len() * 4 + equals.len() * 4 + eoi_match.len();
        if table_bytes > GPU_TABLE_LIMIT {
            return Err(GpuRegexError::TableTooLarge { bytes: table_bytes, limit: GPU_TABLE_LIMIT });
        }
        proof {
            let longer = rows.push(row@);
            assert forall|i: int, j: int|
                #![trigger longer[i].edges[j]]
                0 <= i < longer.len() && 0 <= j < 64 implies encodes(
                transitions@[64 * i + j],
                longer[i].edges[j],
                order,
            ) by {
                if i < rows.len() {
                    assert(longer[i] == rows[i]);
                    assert(encodes(self.transitions@[64 * i + j], rows[i].edges[j], known));
                    lemma_encodes_extended(
                        self.transitions@[64 * i + j],
                        rows[i].edges[j],
                        known,
                        order,
                    );
                } else {
                    assert(longer[i].edges[j] == edges[j]);
                }
            }
            assert forall|i: int| #![trigger equals@[i]] 0 <= i < longer.len() implies encodes(
                equals@[i],
                longer[i].edges[64],
                order,
            ) by {
                if i < rows.len() {
                    assert(longer[i] == rows[i]);
                    assert(encodes(self.equals@[i], rows[i].edges[64], known));
                    lemma_encodes_extended(self.equals@[i], rows[i].edges[64], known, order);
                }
            }
        }
        Ok(
            Compactor {
                compact,
                queue,
                transitions,
                equals,
                eoi_match,
                order: Ghost(order),
                rows: Ghost(rows.push(row@)),
            },
        )
    }

    /// The finished table, once the rows of all numbered states are read.
    pub fn finish(self) -> (table: GpuRegexDfa)
        requires
            self.wf(),
            self.rows().len() == self.order().len(),
        ensures
            table.state_count == self.order().len(),
            tables_hold(
                table.transitions@,
                table.equals@,
                table.eoi_match@,
                self.rows(),
                self.order(),
            ),
    {
        GpuRegexDfa {
            transitions: self.transitions,
            equals: self.equals,
            eoi_match: self.eoi_match,
            state_count: self.compact.len() as u32,
        }
    }
}

/// The byte that a symbol of a row stands for.
pub open spec fn symbol_byte(symbol: int) -> u8 {
    if symbol < 64 {
        alphabet_byte(symbol)
    } else {
        PADDING
    }
}

/// The symbol of a row that stands for a byte.
pub open spec fn symbol_of(byte: u8) -> int {
    if byte == PADDING {
        64
    } else {
        sextet_of(byte)
    }
}

/// Whether a byte is a character of the alphabet or the padding byte.
pub open spec fn is_symbol(byte: u8) -> bool {
    byte == PADDING || in_alphabet(byte)
}

/// The edge that leads to a state of a dense DFA.
pub open spec fn dense_edge(dfa: dense::DFA<Vec<u32>>, state: u32) -> Edge {
    Edge {
        state,
        matching: dense_is_match(dfa, state),
        dead: state == 0,
        quit: dense_is_quit(dfa, state),
    }
}

/// The row of a state of a dense DFA.
pub open spec fn dense_row(dfa: dense::DFA<Vec<u32>>, state: u32) -> Row {
    Row {
        edges: Seq::new(
            SYMBOLS as nat,
            |symbol: int| dense_edge(dfa, dense_next(dfa, state, symbol_byte(symbol))),
        ),
        eoi: dense_edge(dfa, dense_eoi(dfa, state)),
    }
}

/// The rows of a dense DFA.
pub open spec fn dense_rows(dfa: dense::DFA<Vec<u32>>) -> spec_fn(u32) -> Row {
    |state: u32| dense_row(dfa, state)
}

/// How the dense DFA is built that a compact table is read from.
pub open spec fn table_options(case_sensitive: bool) -> DfaOptions {
    DfaOptions {
        case_insensitive: !case_sensitive,
        unicode: true,
        utf8: false,
        unicode_word_boundary: true,
        minimize: false,
        accelerate: false,
        determinize_size_limit: Some(DETERMINIZE_SIZE_LIMIT),
        dfa_size_limit: Some(DFA_SIZE_LIMIT),
    }
}

fn read_edge(dfa: &dense::DFA<Vec<u32>>, state: u32) -> (edge: Edge)
    ensures
        edge == dense_edge(*dfa, state),
{
    Edge {
        state,
        matching: is_match_state(dfa, state),
        dead: is_dead_state(dfa, state),
        quit: is_quit_state(dfa, state),
    }
}

fn read_row(dfa: &dense::DFA<Vec<u32>>, state: u32) -> (row: StateRow)
    requires
        dense_states(*dfa).contains(state),
    ensures
        row@ == dense_row(*dfa, state),
        forall|k: int|
            0 <= k < SYMBOLS ==> dense_states(*dfa).contains((#[trigger] row@.edges[k]).state),
{
    let mut edges: Vec<Edge> = Vec::new();
    let mut k: u8 = 0;
    while k < 64
        invariant
            k <= 64,
            dense_states(*dfa).contains(state),
            edges@.len() == k,
            forall|j: int|
                0 <= j < k ==> #[trigger] edges@[j] == dense_row(*dfa, state).edges[j]
                    && dense_states(*dfa).contains(edges@[j].state),
        decreases 64 - k,
    {
        let next: u32 = next_state(dfa, state, alphabet(k));
        edges.push(read_edge(dfa, next));
        k += 1;
    }
    let next_padding: u32 = next_state(dfa, state, PADDING);
    edges.push(read_edge(dfa, next_padding));
    let next_eoi: u32 = next_eoi_state(dfa, state);
    let eoi = read_edge(dfa, next_eoi);
    assert(edges@ =~= dense_row(*dfa, state).edges);
    StateRow { edges, eoi }
}

/// Once all numbered states are read, or one is rejected, nothing changes.
proof fn lemma_explored(source: spec_fn(u32) -> Row, start: u32, count: nat, more: nat)
    requires
        count <= more,
        explore(source, start, count) matches Ok(order) ==> order.len() <= count,
    ensures
        explore(source, start, more) == explore(source, start, count),
    decreases more,
{
    if count < more {
        lemma_explored(source, start, count, (more - 1) as nat);
    }
}

/// Every newly numbered state comes from one of the edges.
proof fn lemma_numbered_states(edges: Seq<Edge>, order: Seq<u32>, states: Set<u32>)
    requires
        forall|i: int| 0 <= i < order.len() ==> states.contains(#[trigger] order[i]),
        forall|k: int| 0 <= k < edges.len() ==> states.contains((#[trigger] edges[k]).state),
    ensures
        number_edges(edges, order) matches Ok(longer) ==> {
            &&& order.is_prefix_of(longer)
            &&& forall|i: int| 0 <= i < longer.len() ==> states.contains(#[trigger] longer[i])
        },
    decreases edges.len(),
{
    if edges.len() > 0 {
        lemma_numbered_states(edges.drop_last(), order, states);
    }
}

/// Reads the part of a dense DFA that a search from `start` can visit into a
/// compact table.
pub(crate) fn compact_dense(dfa: &dense::DFA<Vec<u32>>, start: u32) -> (result: Result<
    GpuRegexDfa,
    GpuRegexError,
>)
    requires
        dense_states(*dfa).contains(start),
    ensures
        match numbering(dense_rows(*dfa), start) {
            Err(rejection) => result == Err::<GpuRegexDfa, GpuRegexError>(rejection.error()),
            Ok(order) => result matches Ok(table) && table.is_table_of(dense_rows(*dfa), order),
        },
{
    let ghost source = dense_rows(*dfa);
    let ghost states = dense_states(*dfa);
    let mut compactor = Compactor::new(start);
    loop
        invariant
            source == dense_rows(*dfa),
            states == dense_states(*dfa),
            compactor.wf(),
            explore(source, start, compactor.rows().len()) == Ok::<Seq<u32>, Rejection>(
                compactor.order(),
            ),
            forall|i: int|
                0 <= i < compactor.order().len() ==> states.contains(
                    #[trigger] compactor.order()[i],
                ),
            forall|i: int|
                0 <= i < compactor.rows().len() ==> #[trigger] compactor.rows()[i] == source(
                    compactor.order()[i],
                ),
        ensures
            compactor.rows().len() >= compactor.order().len(),
        decreases GPU_TABLE_LIMIT - compactor.rows().len(),
    {
        let state: u32 = match compactor.next_state() {
            Some(state) => state,
            None => {
                break;
            },
        };
        let ghost order = compactor.order();
        let ghost rows = compactor.rows();
        let row = read_row(dfa, state);
        proof {
            compactor.lemma_bounds();
            lemma_numbered_states(row@.edges, order, states);
        }
        match compactor.with_row(&row) {
            Err(error) => {
                proof {
                    lemma_explored(
                        source,
                        start,
                        rows.len() + 1,
                        (GPU_TABLE_LIMIT / ROW_BYTES + 1) as nat,
                    );
                }
                return Err(error);
            },
            Ok(next) => {
                compactor = next;
            },
        }
    }
    proof {
        compactor.lemma_bounds();
        lemma_explored(
            source,
            start,
            compactor.rows().len(),
            (GPU_TABLE_LIMIT / ROW_BYTES + 1) as nat,
        );
        assert(compactor.rows() =~= compactor.order().map_values(|state: u32| source(state)));
    }
    Ok(compactor.finish())
}

/// Whether `result` is what compiling a pattern has to give.
pub open spec fn is_compiled(
    pattern: Seq<char>,
    case_sensitive: bool,
    result: Result<GpuRegexDfa, GpuRegexError>,
) -> bool {
    if pattern.len() == 0 {
        result == Err::<GpuRegexDfa, GpuRegexError>(GpuRegexError::EmptyPattern)
    } else if encode_utf8(pattern).len() > PATTERN_MAX_BYTES {
        result == Err::<GpuRegexDfa, GpuRegexError>(GpuRegexError::PatternTooLong)
    } else {
        match built_dense_dfa(pattern, table_options(case_sensitive)) {
            Err(error) => {
                &&& result matches Err(GpuRegexError::Compile(text))
                &&& text@ == build_error_text(error)
            },
            Ok(dfa) => match dense_start(dfa, Seq::empty()) {
                Err(error) => {
                    &&& result matches Err(GpuRegexError::Compile(text))
                    &&& text@ == match_error_text(error)
                },
                Ok(start) => if dense_is_match(dfa, start) {
                    result == Err::<GpuRegexDfa, GpuRegexError>(GpuRegexError::EmptyPattern)
                } else {
                    match numbering(dense_rows(dfa), start) {
                        Err(rejection) => result == Err::<GpuRegexDfa, GpuRegexError>(
                            rejection.error(),
                        ),
                        Ok(order) => {
                            &&& result matches Ok(table)
                            &&& table.is_table_of(dense_rows(dfa), order)
                            &&& finds_like_regex(dfa, pattern, !case_sensitive)
                        },
                    }
                },
            },
        }
    }
}

/// Whether a table entry has the bit of an accepting edge.
pub open spec fn accepts(entry: u32) -> bool {
    entry >= DFA_MATCH
}

/// Whether a table entry has the bit of a dead edge.
pub open spec fn is_dead(entry: u32) -> bool {
    entry % DFA_MATCH >= DFA_DEAD
}

/// The compact state in the low bits of a table entry.
pub open spec fn target(entry: u32) -> int {
    entry as int % DFA_DEAD as int
}

impl GpuRegexDfa {
    /// The table entry for a byte in a compact state.
    pub open spec fn entry(self, state: int, byte: u8) -> u32 {
        if byte == PADDING {
            self.equals@[state]
        } else {
            self.transitions@[state * 64 + sextet_of(byte)]
        }
    }

    /// Whether the tables have an entry for a byte in a compact state.
    pub open spec fn has_entry(self, state: int, byte: u8) -> bool {
        if byte == PADDING {
            state < self.equals@.len()
        } else {
            state * 64 + sextet_of(byte) < self.transitions@.len()
        }
    }

    /// What a search gives that has come to `state` and has the rest of the
    /// haystack before it.
    ///
    /// An accepting edge ends the search with a match, a dead edge without
    /// one. At the end of the haystack the end-of-input table decides.
    pub open spec fn search(self, state: int, haystack: Seq<u8>) -> Result<bool, GpuRegexError>
        decreases haystack.len(),
    {
        if haystack.len() == 0 {
            Ok(self.eoi_match@[state] != 0)
        } else if !is_symbol(haystack[0]) {
            Err(GpuRegexError::InvalidInput(haystack[0]))
        } else {
            let entry = self.entry(state, haystack[0]);
            if accepts(entry) {
                Ok(true)
            } else if is_dead(entry) {
                Ok(false)
            } else if target(entry) >= self.state_count {
                Err(GpuRegexError::InvalidState)
            } else {
                self.search(target(entry), haystack.drop_first())
            }
        }
    }

    /// Whether the tables have every entry that such a search reads.
    pub open spec fn can_search(self, state: int, haystack: Seq<u8>) -> bool
        decreases haystack.len(),
    {
        if haystack.len() == 0 {
            state < self.eoi_match@.len()
        } else if !is_symbol(haystack[0]) {
            true
        } else {
            let entry = self.entry(state, haystack[0]);
            &&& self.has_entry(state, haystack[0])
            &&& accepts(entry) || is_dead(entry) || target(entry) >= self.state_count
                || self.can_search(target(entry), haystack.drop_first())
        }
    }

    /// Compiles `pattern` with the requested ASCII case behavior.
    pub fn compile(pattern: &str, case_sensitive: bool) -> (result: Result<Self, GpuRegexError>)
        ensures
            is_compiled(pattern@, case_sensitive, result),
    {
        if pattern.is_empty() {
            return Err(GpuRegexError::EmptyPattern);
        }
        if pattern.as_bytes().len() > PATTERN_MAX_BYTES {
            return Err(GpuRegexError::PatternTooLong);
        }
        let options = DfaOptions {
            case_insensitive: !case_sensitive,
            unicode: true,
            utf8: false,
            unicode_word_boundary: true,
            minimize: false,
            accelerate: false,
            determinize_size_limit: Some(DETERMINIZE_SIZE_LIMIT),
            dfa_size_limit: Some(DFA_SIZE_LIMIT),
        };
        let dfa = match build_dense_dfa(pattern, options) {
            Err(error) => {
                return Err(GpuRegexError::Compile(display_build_error(&error)));
            },
            Ok(dfa) => dfa,
        };
        let empty: [u8; 0] = [];
        assert(empty@ =~= Seq::empty());
        let start: u32 = match start_state_forward(&dfa, &empty) {
            Err(error) => {
                return Err(GpuRegexError::Compile(display_match_error(&error)));
            },
            Ok(start) => start,
        };
        if is_match_state(&dfa, start) {
            return Err(GpuRegexError::EmptyPattern);
        }
        compact_dense(&dfa, start)
    }

    /// Tests a Base64 slice using the same transition path used by CUDA.
    pub fn is_match_bytes(&self, haystack: &[u8]) -> (result: Result<bool, GpuRegexError>)
        requires
            self.can_search(0, haystack@),
        ensures
            result == self.search(0, haystack@),
    {
        let mut state: usize = 0;
        let mut i: usize = 0;
        assert(haystack@.skip(0) =~= haystack@);
        while i < haystack.len()
            invariant
                i <= haystack@.len(),
                self.can_search(state as int, haystack@.skip(i as int)),
                self.search(0, haystack@) == self.search(state as int, haystack@.skip(i as int)),
            decreases haystack@.len() - i,
        {
            let byte: u8 = haystack[i];
            let ghost rest = haystack@.skip(i as int);
            assert(rest[0] == byte);
            assert(rest.drop_first() =~= haystack@.skip(i as int + 1));
            assert(self.transitions@.len() == self.transitions.len());
            let edge: u32 = if byte == PADDING {
                self.equals[state]
            } else {
                match sextet(byte) {
                    None => {
                        return Err(GpuRegexError::InvalidInput(byte));
                    },
                    Some(symbol) => self.transitions[state * 64 + symbol as usize],
                }
            };
            assert(edge & DFA_MATCH != 0 <==> edge >= DFA_MATCH) by (bit_vector);
            assert(edge & DFA_DEAD != 0 <==> edge % DFA_MATCH >= DFA_DEAD) by (bit_vector);
            assert(edge & DFA_STATE_MASK == edge % DFA_DEAD) by (bit_vector);
            if edge & DFA_MATCH != 0 {
                return Ok(true);
            }
            if edge & DFA_DEAD != 0 {
                return Ok(false);
            }
            state = (edge & DFA_STATE_MASK) as usize;
            if state >= self.state_count as usize {
                return Err(GpuRegexError::InvalidState);
            }
            i += 1;
        }
        Ok(self.eoi_match[state] != 0)
    }

    /// Returns the compact table size in bytes.
    pub fn table_bytes(&self) -> (bytes: usize)
        requires
            4 * self.transitions@.len() + 4 * self.equals@.len() + self.eoi_match@.len()
                <= usize::MAX,
        ensures
            bytes == 4 * self.transitions@.len() + 4 * self.equals@.len() + self.eoi_match@.len(),
    {
        self.transitions.len() * 4 + self.equals.len() * 4 + self.eoi_match.len()
    }
}

} // verus!
