use regex::bytes::RegexBuilder;
use std::collections::{HashMap, VecDeque};
use wg_vanity::regex_dfa::{
    encode_transition, Compactor, Edge, StateRow, DFA_DEAD, DFA_MATCH, GPU_STATE_LIMIT,
    GPU_TABLE_LIMIT, PATTERN_MAX_BYTES,
};
use wg_vanity::{GpuRegexDfa, GpuRegexError};

fn assert_equivalent(pattern: &str, inputs: &[&[u8]]) {
    let reference = RegexBuilder::new(pattern)
        .case_insensitive(false)
        .build()
        .unwrap();
    let dfa = GpuRegexDfa::compile(pattern, true).unwrap();
    for input in inputs {
        assert_eq!(
            reference.is_match(input),
            dfa.is_match_bytes(input).unwrap(),
            "pattern {pattern:?}, input {input:?}"
        );
    }
}

#[test]
fn matches_anchors_and_eoi() {
    assert_equivalent("^foo", &[b"foo", b"xfoo", b"foo+", b""]);
    assert_equivalent("foo$", &[b"foo", b"xfoo", b"foobar", b""]);
    assert_equivalent(r"\Afoo\z", &[b"foo", b"xfoo", b"foo+"]);
    assert_equivalent("=+$", &[b"=", b"A=", b"==", b"A"]);
}

#[test]
fn matches_classes_and_repetition() {
    assert_equivalent(
        r"(foo|bar)[0-9]{1,3}",
        &[b"foo1", b"bar123", b"bar1234", b"xxfoo9yy", b"baz1"],
    );
    assert_equivalent(r"a.{0,3}z", &[b"az", b"abz", b"abcdez", b"a123z"]);
    assert_equivalent(r"\bfoo\b", &[b"foo", b"xfoo", b"foo+", b"foobar"]);
}

#[test]
fn random_base64_differential() {
    let patterns = [
        "dave",
        "d.ve",
        "[A-Za-z0-9+/]{4}",
        "^(foo|bar)",
        "a.*z",
        "(?i:wire|wg)[0-9]{2}",
    ];
    let alphabet = b"ABCDEFGHIJKLMNOPQRSTUVWXYZabcdefghijklmnopqrstuvwxyz0123456789+/";
    let mut seed = 0x1234_5678u32;
    for pattern in patterns {
        let reference = RegexBuilder::new(pattern)
            .case_insensitive(true)
            .build()
            .unwrap();
        let dfa = GpuRegexDfa::compile(pattern, false).unwrap();
        for _ in 0..170_000 {
            let mut input = [0u8; 44];
            for byte in &mut input {
                seed = seed.wrapping_mul(1_664_525).wrapping_add(1_013_904_223);
                *byte = alphabet[(seed as usize) % alphabet.len()];
            }
            assert_eq!(
                reference.is_match(&input),
                dfa.is_match_bytes(&input).unwrap(),
                "pattern {pattern:?}"
            );
        }
    }
}

#[test]
fn rejects_empty_and_oversized_patterns() {
    assert!(matches!(
        GpuRegexDfa::compile("", true),
        Err(GpuRegexError::EmptyPattern)
    ));
    let oversized = "a".repeat(PATTERN_MAX_BYTES + 1);
    assert!(matches!(
        GpuRegexDfa::compile(&oversized, true),
        Err(GpuRegexError::PatternTooLong)
    ));
}

#[test]
fn longest_pattern_is_compiled() {
    let longest = "a".repeat(PATTERN_MAX_BYTES);
    assert!(!matches!(
        GpuRegexDfa::compile(&longest, true),
        Err(GpuRegexError::PatternTooLong)
    ));
    let accented = "\u{e9}".repeat(PATTERN_MAX_BYTES / 2 + 1);
    assert!(matches!(
        GpuRegexDfa::compile(&accented, true),
        Err(GpuRegexError::PatternTooLong)
    ));
}

#[test]
fn patterns_that_match_nothing_accept_at_the_end() {
    let table = GpuRegexDfa::compile("a*", true).unwrap();
    assert_eq!(table.eoi_match[0], 1);
    assert!(table.is_match_bytes(b"").unwrap());
    assert!(table.is_match_bytes(b"b").unwrap());
}

#[test]
fn reports_what_the_builder_reports() {
    let error = regex_automata::dfa::dense::Builder::new()
        .build("(")
        .unwrap_err();
    assert_eq!(
        GpuRegexDfa::compile("(", true).unwrap_err(),
        GpuRegexError::Compile(error.to_string())
    );
}

#[test]
fn rejects_too_many_states() {
    assert_eq!(
        GpuRegexDfa::compile("[ab]*a[ab]{13}c", true).unwrap_err(),
        GpuRegexError::TooManyStates {
            states: GPU_STATE_LIMIT + 1,
            limit: GPU_STATE_LIMIT,
        }
    );
}

#[test]
fn rejects_tables_that_are_too_large() {
    assert_eq!(
        GpuRegexDfa::compile("^a{4050}", true).unwrap_err(),
        GpuRegexError::TableTooLarge {
            bytes: 4018 * 261,
            limit: GPU_TABLE_LIMIT,
        }
    );
}

#[test]
fn tables_have_the_documented_size() {
    let table = GpuRegexDfa::compile("dave", true).unwrap();
    let states = table.state_count as usize;
    assert_eq!(table.transitions.len(), 64 * states);
    assert_eq!(table.equals.len(), states);
    assert_eq!(table.eoi_match.len(), states);
    assert_eq!(table.table_bytes(), 261 * states);
}

#[test]
fn case_behavior_reaches_the_table() {
    let sensitive = GpuRegexDfa::compile("Dave", true).unwrap();
    let insensitive = GpuRegexDfa::compile("Dave", false).unwrap();
    assert!(sensitive.is_match_bytes(b"xxDave").unwrap());
    assert!(!sensitive.is_match_bytes(b"xxdAVE").unwrap());
    assert!(insensitive.is_match_bytes(b"xxdAVE").unwrap());
}

#[test]
fn refuses_input_outside_the_alphabet() {
    let table = GpuRegexDfa::compile("dave", true).unwrap();
    assert_eq!(
        table.is_match_bytes(b"ab-c").unwrap_err(),
        GpuRegexError::InvalidInput(b'-')
    );
    assert!(table.is_match_bytes(b"daveA-").unwrap());
}

#[test]
fn refuses_states_that_do_not_exist() {
    let table = GpuRegexDfa {
        transitions: vec![7; 64],
        equals: vec![DFA_DEAD],
        eoi_match: vec![1],
        state_count: 1,
    };
    assert_eq!(
        table.is_match_bytes(b"A").unwrap_err(),
        GpuRegexError::InvalidState
    );
    assert!(!table.is_match_bytes(b"=").unwrap());
    assert!(table.is_match_bytes(b"").unwrap());
}

#[test]
fn errors_are_described() {
    let cases = [
        (
            GpuRegexError::EmptyPattern,
            "empty regexes are not supported by CUDA",
        ),
        (
            GpuRegexError::PatternTooLong,
            "regex exceeds the 4096-byte limit",
        ),
        (
            GpuRegexError::Compile("unclosed group".to_string()),
            "regex DFA compilation failed: unclosed group",
        ),
        (
            GpuRegexError::TooManyStates { states: 4097, limit: 4096 },
            "compact DFA has 4097 states; limit is 4096",
        ),
        (
            GpuRegexError::TableTooLarge { bytes: 1_048_698, limit: 1_048_576 },
            "compact DFA requires 1048698 bytes; limit is 1048576",
        ),
        (
            GpuRegexError::QuitStateReachable,
            "DFA quit state is reachable",
        ),
        (
            GpuRegexError::InvalidState,
            "DFA contains an invalid state",
        ),
        (
            GpuRegexError::InvalidInput(0x0a),
            "input byte 0x0a is not Base64",
        ),
        (
            GpuRegexError::InvalidInput(0xff),
            "input byte 0xff is not Base64",
        ),
    ];
    for (error, text) in cases {
        assert_eq!(error.message(), text);
    }
}

fn live(state: u32) -> Edge {
    Edge { state, matching: false, dead: false, quit: false }
}

fn dead() -> Edge {
    Edge { state: 0, matching: false, dead: true, quit: false }
}

fn accepting(state: u32) -> Edge {
    Edge { state, matching: true, dead: false, quit: false }
}

fn quit(state: u32) -> Edge {
    Edge { state, matching: false, dead: false, quit: true }
}

#[test]
fn transitions_are_numbered_once() {
    let mut compact = HashMap::new();
    let mut queue = VecDeque::new();
    compact.insert(10, 0);
    assert_eq!(encode_transition(accepting(3), &mut compact, &mut queue), Ok(DFA_MATCH));
    assert_eq!(encode_transition(dead(), &mut compact, &mut queue), Ok(DFA_DEAD));
    assert_eq!(encode_transition(live(10), &mut compact, &mut queue), Ok(0));
    assert!(queue.is_empty());
    assert_eq!(encode_transition(live(20), &mut compact, &mut queue), Ok(1));
    assert_eq!(encode_transition(live(20), &mut compact, &mut queue), Ok(1));
    assert_eq!(queue, [20]);
    assert_eq!(
        encode_transition(quit(30), &mut compact, &mut queue),
        Err(GpuRegexError::QuitStateReachable)
    );
    assert_eq!(compact.len(), 2);
}

#[test]
fn rows_become_a_table() {
    let mut edges = vec![live(5); 64];
    edges[1] = accepting(9);
    edges[2] = live(7);
    edges.push(dead());
    let first = StateRow { edges, eoi: dead() };
    let mut back = vec![live(5); 65];
    back[3] = dead();
    let second = StateRow { edges: back, eoi: accepting(9) };

    let compactor = Compactor::new(5);
    assert_eq!(compactor.next_state(), Some(5));
    let compactor = compactor.with_row(&first).ok().unwrap();
    assert_eq!(compactor.next_state(), Some(7));
    let compactor = compactor.with_row(&second).ok().unwrap();
    assert_eq!(compactor.next_state(), None);
    let table = compactor.finish();
    assert_eq!(table.state_count, 2);
    assert_eq!(table.transitions[0], 0);
    assert_eq!(table.transitions[1], DFA_MATCH);
    assert_eq!(table.transitions[2], 1);
    assert_eq!(table.transitions[64 + 3], DFA_DEAD);
    assert_eq!(table.equals, [DFA_DEAD, 0]);
    assert_eq!(table.eoi_match, [0, 1]);
    assert!(table.is_match_bytes(b"B").unwrap());
    assert!(table.is_match_bytes(b"C").unwrap());
    assert!(!table.is_match_bytes(b"CA").unwrap());
    assert!(!table.is_match_bytes(b"CD").unwrap());
}

#[test]
fn quit_states_are_refused() {
    let mut edges = vec![dead(); 65];
    edges[40] = quit(8);
    let row = StateRow { edges, eoi: dead() };
    assert_eq!(
        Compactor::new(5).with_row(&row).err(),
        Some(GpuRegexError::QuitStateReachable)
    );
    let row = StateRow { edges: vec![dead(); 65], eoi: quit(8) };
    assert_eq!(
        Compactor::new(5).with_row(&row).err(),
        Some(GpuRegexError::QuitStateReachable)
    );
}
