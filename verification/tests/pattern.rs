use wg_vanity::pattern::{contains, describe_rejection};
use wg_vanity::{GpuPattern, GpuRegexError, PatternKind, SearchPattern};

#[test]
fn literal_case_behavior() {
    let insensitive = SearchPattern::new("Ab", PatternKind::Literal, false).unwrap();
    let sensitive = SearchPattern::new("Ab", PatternKind::Literal, true).unwrap();
    assert!(insensitive.is_match(b"xxaBzz", 0, 6));
    assert!(!sensitive.is_match(b"xxaBzz", 0, 6));
    assert!(sensitive.is_match(b"xxAbzz", 0, 6));
}

#[test]
fn glob_supports_wildcards_and_range() {
    let pattern = SearchPattern::new("a*?z", PatternKind::Glob, false).unwrap();
    assert!(pattern.is_match(b"xxAbcZyy", 0, 8));
    assert!(!pattern.is_match(b"xxAbcZyy", 0, 5));
}

#[test]
fn regex_uses_rust_regex_engine() {
    let pattern = SearchPattern::new("a[0-9]+z", PatternKind::Regex, true).unwrap();
    assert!(pattern.is_match(b"xxa123zyy", 0, 9));
    assert!(pattern.gpu_pattern().is_ok());
}

#[test]
fn regex_case_behavior() {
    let sensitive = SearchPattern::new("a[0-9]+z", PatternKind::Regex, true).unwrap();
    let insensitive = SearchPattern::new("a[0-9]+z", PatternKind::Regex, false).unwrap();
    assert!(!sensitive.is_match(b"xxA123zyy", 0, 9));
    assert!(insensitive.is_match(b"xxA123zyy", 0, 9));
    assert!(!insensitive.is_match(b"xxAzyy", 0, 6));
}

#[test]
fn regex_anchors_are_relative_to_the_range() {
    let pattern = SearchPattern::new("^b.d$", PatternKind::Regex, true).unwrap();
    assert!(pattern.is_match(b"abcde", 1, 4));
    assert!(!pattern.is_match(b"abcde", 0, 4));
    assert!(!pattern.is_match(b"abcde", 1, 5));
}

#[test]
fn match_depends_on_the_range_alone() {
    let pattern = SearchPattern::new("cd", PatternKind::Literal, true).unwrap();
    assert!(pattern.is_match(b"abcdef", 2, 4));
    assert!(pattern.is_match(b"--cd--", 2, 4));
    assert!(pattern.is_match(b"-cd", 1, 3));
}

#[test]
fn invalid_ranges_match_nothing() {
    for kind in [PatternKind::Literal, PatternKind::Glob, PatternKind::Regex] {
        let pattern = SearchPattern::new("a", kind, true).unwrap();
        assert!(pattern.is_match(b"aaa", 0, 3));
        assert!(!pattern.is_match(b"aaa", 2, 1));
        assert!(!pattern.is_match(b"aaa", 0, 4));
        assert!(!pattern.is_match(b"aaa", 3, 3));
    }
}

#[test]
fn rejected_expressions_are_reported() {
    let message = SearchPattern::new("(", PatternKind::Regex, true).unwrap_err();
    let error = regex::bytes::Regex::new("(").unwrap_err();
    assert_eq!(message, format!("invalid regular expression: {error}"));
    assert_eq!(describe_rejection("unclosed"), "invalid regular expression: unclosed");
    assert!(SearchPattern::new("(", PatternKind::Literal, true).is_ok());
    assert!(SearchPattern::new("(", PatternKind::Glob, true).is_ok());
}

#[test]
fn accessors_describe_the_text() {
    let pattern = SearchPattern::new("Dave", PatternKind::Glob, false).unwrap();
    assert_eq!(pattern.kind(), PatternKind::Glob);
    assert_eq!(pattern.len(), 4);
    assert!(!pattern.is_empty());
    let empty = SearchPattern::new("", PatternKind::Glob, false).unwrap();
    assert_eq!(empty.len(), 0);
    assert!(empty.is_empty());
    let accented = SearchPattern::new("\u{e9}", PatternKind::Literal, false).unwrap();
    assert_eq!(accented.len(), 2);
}

#[test]
fn text_patterns_are_prepared_normalized() {
    let literal = SearchPattern::new("WireGuard?", PatternKind::Literal, false).unwrap();
    match literal.gpu_pattern() {
        Ok(GpuPattern::Literal { bytes, case_sensitive }) => {
            assert_eq!(bytes, b"wireguard?");
            assert!(!case_sensitive);
        }
        other => panic!("{other:?}"),
    }
    let glob = SearchPattern::new("Wire*", PatternKind::Glob, true).unwrap();
    match glob.gpu_pattern() {
        Ok(GpuPattern::Glob { bytes, case_sensitive }) => {
            assert_eq!(bytes, b"Wire*");
            assert!(case_sensitive);
        }
        other => panic!("{other:?}"),
    }
}

#[test]
fn regex_patterns_are_prepared_as_tables() {
    let regex = SearchPattern::new("wg[0-9]", PatternKind::Regex, false).unwrap();
    match regex.gpu_pattern() {
        Ok(GpuPattern::Regex(table)) => {
            assert!(table.is_match_bytes(b"xxWG7").unwrap());
            assert!(!table.is_match_bytes(b"xxWGx").unwrap());
        }
        other => panic!("{other:?}"),
    }
    let empty = SearchPattern::new("", PatternKind::Regex, false).unwrap();
    assert!(matches!(empty.gpu_pattern(), Err(GpuRegexError::EmptyPattern)));
}

#[test]
fn case_of_pattern_and_text_is_dropped_together() {
    let upper = SearchPattern::new("DA*E", PatternKind::Glob, false).unwrap();
    let lower = SearchPattern::new("da*e", PatternKind::Glob, false).unwrap();
    let kept = SearchPattern::new("DA*E", PatternKind::Glob, true).unwrap();
    for text in [b"xDAvEx", b"xdavex", b"xDaVex", b"xdvaex"] {
        assert_eq!(upper.is_match(text, 0, 6), lower.is_match(text, 0, 6));
        assert!(!kept.is_match(text, 0, 6) || upper.is_match(text, 0, 6));
    }
    assert!(kept.is_match(b"xDAvEx", 0, 6));
    assert!(!kept.is_match(b"xdavex", 0, 6));
}

#[test]
fn only_ascii_case_is_dropped() {
    let pattern = SearchPattern::new("[\u{c9}", PatternKind::Literal, false).unwrap();
    assert!(pattern.is_match("[\u{c9}".as_bytes(), 0, 3));
    assert!(!pattern.is_match("{\u{c9}".as_bytes(), 0, 3));
    assert!(!pattern.is_match("[\u{e9}".as_bytes(), 0, 3));
}

#[test]
fn wider_ranges_keep_matches() {
    let literal = SearchPattern::new("cd", PatternKind::Literal, false).unwrap();
    let glob = SearchPattern::new("c?e", PatternKind::Glob, false).unwrap();
    assert!(literal.is_match(b"abcdef", 2, 4));
    assert!(literal.is_match(b"abcdef", 1, 6));
    assert!(glob.is_match(b"abcdef", 2, 5));
    assert!(glob.is_match(b"abcdef", 0, 6));
    assert!(!glob.is_match(b"abcdef", 2, 4));
}

#[test]
fn globs_without_wildcards_are_literals() {
    let glob = SearchPattern::new("b+/", PatternKind::Glob, true).unwrap();
    let literal = SearchPattern::new("b+/", PatternKind::Literal, true).unwrap();
    for text in [b"ab+/", b"b+/a", b"b+a/", b"B+/b"] {
        assert_eq!(glob.is_match(text, 0, 4), literal.is_match(text, 0, 4));
    }
}

#[test]
fn contains_finds_every_offset() {
    assert!(contains(b"abc", b"a"));
    assert!(contains(b"abc", b"bc"));
    assert!(contains(b"aab", b"ab"));
    assert!(!contains(b"abc", b"ac"));
    assert!(!contains(b"ab", b"abc"));
    assert!(contains(b"ab", b""));
}

#[test]
fn empty_literals_match_in_valid_ranges() {
    for case_sensitive in [true, false] {
        let pattern = SearchPattern::new("", PatternKind::Literal, case_sensitive).unwrap();
        assert!(pattern.is_match(b"abc", 0, 3));
        assert!(pattern.is_match(b"abc", 2, 2));
        assert!(pattern.is_match(b"", 0, 0));
        assert!(!pattern.is_match(b"abc", 2, 1));
        assert!(!pattern.is_match(b"abc", 0, 4));
    }
}

#[test]
fn ranges_are_matched_as_slices() {
    for (text, kind) in [
        ("cd", PatternKind::Literal),
        ("", PatternKind::Literal),
        ("c?e", PatternKind::Glob),
        (r"^c\w*\b$", PatternKind::Regex),
    ] {
        let pattern = SearchPattern::new(text, kind, true).unwrap();
        let encoded = b"abcdef+g";
        for start in 0..=encoded.len() {
            for end in start..=encoded.len() {
                assert_eq!(
                    pattern.is_match(encoded, start, end),
                    pattern.is_match(&encoded[start..end], 0, end - start)
                );
            }
        }
    }
}
