//! The parts of `regex-automata` that the compact DFA is read from.
//!
//! A dense DFA is opaque here. Its states are written as the `u32` inside a
//! `StateID`, and each method that reads the automaton has a wrapper whose
//! contract names what the method returns.

use regex_automata::dfa::dense;
use regex_automata::dfa::Automaton;
use regex_automata::util::primitives::StateID;
use vstd::prelude::*;

use crate::regex_engine::{built_regex, regex_matches};

verus! {

/// Declares `regex_automata::dfa::dense::DFA`.
#[verifier::external_type_specification]
#[verifier::external_body]
#[verifier::reject_recursive_types(T)]
pub struct ExDenseDfa<T>(regex_automata::dfa::dense::DFA<T>);

/// Declares `regex_automata::dfa::dense::BuildError`.
#[verifier::external_type_specification]
#[verifier::external_body]
pub struct ExBuildError(regex_automata::dfa::dense::BuildError);

/// Declares `regex_automata::MatchError`.
#[verifier::external_type_specification]
#[verifier::external_body]
pub struct ExMatchError(regex_automata::MatchError);

/// How a dense DFA is built: the syntax flags and the limits of the builder.
///
/// The search is always unanchored and leftmost-first.
#[derive(Clone, Copy, Debug, Eq, PartialEq)]
pub struct DfaOptions {
    /// Whether letters match without regard to case.
    pub case_insensitive: bool,
    /// Whether Unicode classes are available.
    pub unicode: bool,
    /// Whether matches are confined to valid UTF-8.
    pub utf8: bool,
    /// Whether Unicode word boundaries are accepted heuristically.
    pub unicode_word_boundary: bool,
    /// Whether the DFA is minimized after determinization.
    pub minimize: bool,
    /// Whether accelerated states are computed.
    pub accelerate: bool,
    /// Limit on the memory used while determinizing, in bytes.
    pub determinize_size_limit: Option<usize>,
    /// Limit on the size of the finished DFA, in bytes.
    pub dfa_size_limit: Option<usize>,
}

/// What `dense::Builder::build` returns for a pattern and the options.
pub uninterp spec fn built_dense_dfa(pattern: Seq<char>, options: DfaOptions) -> Result<
    dense::DFA<Vec<u32>>,
    dense::BuildError,
>;

/// The text that a `dense::BuildError` displays.
pub uninterp spec fn build_error_text(error: dense::BuildError) -> Seq<char>;

/// The text that a `MatchError` displays.
pub uninterp spec fn match_error_text(error: regex_automata::MatchError) -> Seq<char>;

/// The identifiers that refer to a state of the DFA.
pub uninterp spec fn dense_states(dfa: dense::DFA<Vec<u32>>) -> Set<u32>;

/// What `Automaton::start_state_forward` returns for a whole haystack.
pub uninterp spec fn dense_start(dfa: dense::DFA<Vec<u32>>, haystack: Seq<u8>) -> Result<
    u32,
    regex_automata::MatchError,
>;

/// The state that `Automaton::next_state` returns.
pub uninterp spec fn dense_next(dfa: dense::DFA<Vec<u32>>, state: u32, byte: u8) -> u32;

/// The state that `Automaton::next_eoi_state` returns.
pub uninterp spec fn dense_eoi(dfa: dense::DFA<Vec<u32>>, state: u32) -> u32;

/// What `Automaton::is_match_state` returns.
pub uninterp spec fn dense_is_match(dfa: dense::DFA<Vec<u32>>, state: u32) -> bool;

/// What `Automaton::is_quit_state` returns.
pub uninterp spec fn dense_is_quit(dfa: dense::DFA<Vec<u32>>, state: u32) -> bool;

/// Whether a dense DFA that has come to `state` finds a match in the rest of
/// the haystack: a match state ends the search with a match, the dead state
/// without one, and the end-of-input transition decides at the end.
pub open spec fn dense_accepts(dfa: dense::DFA<Vec<u32>>, state: u32, haystack: Seq<u8>) -> bool
    decreases haystack.len(),
{
    if haystack.len() == 0 {
        dense_is_match(dfa, dense_eoi(dfa, state))
    } else {
        let next = dense_next(dfa, state, haystack[0]);
        dense_is_match(dfa, next) || (next != 0 && dense_accepts(
            dfa,
            next,
            haystack.drop_first(),
        ))
    }
}

/// Whether every byte is ASCII.
pub open spec fn is_ascii_text(bytes: Seq<u8>) -> bool {
    forall|i: int| 0 <= i < bytes.len() ==> #[trigger] bytes[i] < 128
}

/// Whether a dense DFA, begun at the start of a text, finds a match in every
/// ASCII text exactly where the expression that the `regex` crate builds from
/// the pattern does.
pub open spec fn finds_like_regex(
    dfa: dense::DFA<Vec<u32>>,
    pattern: Seq<char>,
    case_insensitive: bool,
) -> bool {
    forall|regex: regex::bytes::Regex, start: u32, haystack: Seq<u8>|
        built_regex(pattern, case_insensitive) == Ok::<regex::bytes::Regex, regex::Error>(regex)
            && dense_start(dfa, Seq::empty()) == Ok::<u32, regex_automata::MatchError>(start)
            && is_ascii_text(haystack) ==> #[trigger] regex_matches(regex, haystack)
            == #[trigger] dense_accepts(dfa, start, haystack)
}

/// Calls `regex_automata::dfa::dense::Builder::build`, configured by `options`
/// for an unanchored leftmost-first search.
///
/// Claims that the outcome depends on the pattern and the options alone. Claims
/// further that, with the syntax flags that `regex::bytes` sets, the DFA finds
/// matches where that crate does: both read the same syntax with the same
/// parser, and a search over the DFA ends in a match state if and only if the
/// pattern matches somewhere. This is claimed of ASCII text alone, because
/// Unicode word boundaries work in a dense DFA on ASCII text alone.
#[verifier::external_body]
pub(crate) fn build_dense_dfa(pattern: &str, options: DfaOptions) -> (result: Result<
    dense::DFA<Vec<u32>>,
    dense::BuildError,
>)
    ensures
        result == built_dense_dfa(pattern@, options),
        options.unicode && !options.utf8 ==> (result matches Ok(dfa) ==> finds_like_regex(
            dfa,
            pattern@,
            options.case_insensitive,
        )),
{
    let syntax = regex_automata::util::syntax::Config::new()
        .case_insensitive(options.case_insensitive)
        .unicode(options.unicode)
        .utf8(options.utf8);
    let config = dense::Config::new()
        .start_kind(regex_automata::dfa::StartKind::Unanchored)
        .match_kind(regex_automata::MatchKind::LeftmostFirst)
        .unicode_word_boundary(options.unicode_word_boundary)
        .minimize(options.minimize)
        .accelerate(options.accelerate)
        .determinize_size_limit(options.determinize_size_limit)
        .dfa_size_limit(options.dfa_size_limit);
    dense::Builder::new().configure(config).syntax(syntax).build(pattern)
}

/// Calls `to_string` of `dense::BuildError` and names the text.
#[verifier::external_body]
pub(crate) fn display_build_error(error: &dense::BuildError) -> (text: String)
    ensures
        text@ == build_error_text(*error),
{
    error.to_string()
}

/// Calls `to_string` of `MatchError` and names the text.
#[verifier::external_body]
pub(crate) fn display_match_error(error: &regex_automata::MatchError) -> (text: String)
    ensures
        text@ == match_error_text(*error),
{
    error.to_string()
}

/// Calls `Automaton::start_state_forward` on an `Input` that spans `haystack`.
///
/// Claims that the result depends on the DFA and the haystack alone, and that
/// a start state is a valid state.
#[verifier::external_body]
pub(crate) fn start_state_forward(dfa: &dense::DFA<Vec<u32>>, haystack: &[u8]) -> (result: Result<
    u32,
    regex_automata::MatchError,
>)
    ensures
        result == dense_start(*dfa, haystack@),
        result matches Ok(state) ==> dense_states(*dfa).contains(state),
{
    dfa.start_state_forward(&regex_automata::Input::new(haystack)).map(|state| state.as_u32())
}

/// Calls `Automaton::next_state`.
///
/// Claims that a valid state leads to a valid state for every byte, and that
/// the result depends on the DFA, the state and the byte alone. The method may
/// panic on an identifier that is not valid.
#[verifier::external_body]
pub(crate) fn next_state(dfa: &dense::DFA<Vec<u32>>, state: u32, byte: u8) -> (next: u32)
    requires
        dense_states(*dfa).contains(state),
    ensures
        next == dense_next(*dfa, state, byte),
        dense_states(*dfa).contains(next),
{
    dfa.next_state(StateID::new_unchecked(state as usize), byte).as_u32()
}

/// Calls `Automaton::next_eoi_state`.
///
/// Claims that a valid state leads to a valid state, and that the result
/// depends on the DFA and the state alone. The method may panic on an
/// identifier that is not valid.
#[verifier::external_body]
pub(crate) fn next_eoi_state(dfa: &dense::DFA<Vec<u32>>, state: u32) -> (next: u32)
    requires
        dense_states(*dfa).contains(state),
    ensures
        next == dense_eoi(*dfa, state),
        dense_states(*dfa).contains(next),
{
    dfa.next_eoi_state(StateID::new_unchecked(state as usize)).as_u32()
}

/// Calls `Automaton::is_match_state` and names what it returns.
#[verifier::external_body]
pub(crate) fn is_match_state(dfa: &dense::DFA<Vec<u32>>, state: u32) -> (matching: bool)
    ensures
        matching == dense_is_match(*dfa, state),
{
    dfa.is_match_state(StateID::new_unchecked(state as usize))
}

/// Calls `Automaton::is_dead_state`.
///
/// Claims that the dead state is the one whose identifier is zero.
#[verifier::external_body]
pub(crate) fn is_dead_state(dfa: &dense::DFA<Vec<u32>>, state: u32) -> (dead: bool)
    ensures
        dead == (state == 0),
{
    dfa.is_dead_state(StateID::new_unchecked(state as usize))
}

/// Calls `Automaton::is_quit_state` and names what it returns.
#[verifier::external_body]
pub(crate) fn is_quit_state(dfa: &dense::DFA<Vec<u32>>, state: u32) -> (quit: bool)
    ensures
        quit == dense_is_quit(*dfa, state),
{
    dfa.is_quit_state(StateID::new_unchecked(state as usize))
}

} // verus!
