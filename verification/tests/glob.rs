use wg_vanity::glob::{glob_matches, glob_matches_at};

#[test]
fn prefixes_are_matched_at_the_beginning() {
    assert!(glob_matches_at(b"abcdef", b"abc"));
    assert!(!glob_matches_at(b"xabc", b"abc"));
    assert!(glob_matches_at(b"abcdef", b""));
    assert!(glob_matches_at(b"", b""));
    assert!(glob_matches_at(b"", b"**"));
    assert!(!glob_matches_at(b"", b"*?"));
}

#[test]
fn stars_backtrack() {
    assert!(glob_matches_at(b"aaab", b"*ab"));
    assert!(glob_matches_at(b"abcabd", b"ab*abd"));
    assert!(glob_matches_at(b"abababac", b"*abac"));
    assert!(glob_matches_at(b"xayaz", b"*a*z"));
    assert!(!glob_matches_at(b"xaya", b"*a*z"));
}

#[test]
fn question_marks_take_one_byte() {
    assert!(glob_matches_at(b"axc", b"a?c"));
    assert!(!glob_matches_at(b"ac", b"a?c"));
    assert!(!glob_matches_at(b"a", b"a?"));
    assert!(glob_matches_at(b"a*", b"a?"));
}

#[test]
fn parts_are_matched_anywhere() {
    assert!(glob_matches(b"xxabcyy", b"a?c"));
    assert!(glob_matches(b"xxab", b"b*"));
    assert!(glob_matches(b"", b""));
    assert!(!glob_matches(b"", b"?"));
    assert!(!glob_matches(b"xxaby", b"a?c"));
}

fn denotes(text: &[u8], pattern: &[u8]) -> bool {
    match pattern.first() {
        None => text.is_empty(),
        Some(b'*') => (0..=text.len()).any(|k| denotes(&text[k..], &pattern[1..])),
        Some(&byte) => {
            !text.is_empty()
                && (byte == b'?' || byte == text[0])
                && denotes(&text[1..], &pattern[1..])
        }
    }
}

#[test]
fn matching_agrees_with_the_definition() {
    let mut seed = 12345u32;
    let mut next = |bound: u32| {
        seed = seed.wrapping_mul(1_664_525).wrapping_add(1_013_904_223);
        (seed >> 16) % bound
    };
    for _ in 0..20_000 {
        let text: Vec<u8> = (0..next(8)).map(|_| b"ab"[next(2) as usize]).collect();
        let pattern: Vec<u8> = (0..next(6)).map(|_| b"ab*?"[next(4) as usize]).collect();
        let begins = (0..=text.len()).any(|n| denotes(&text[..n], &pattern));
        let occurs = (0..=text.len())
            .any(|i| (i..=text.len()).any(|j| denotes(&text[i..j], &pattern)));
        assert_eq!(glob_matches_at(&text, &pattern), begins);
        assert_eq!(glob_matches(&text, &pattern), occurs);
    }
}

#[test]
fn outer_stars_change_nothing() {
    for pattern in ["a?c", "b", "", "?*?", "zz"] {
        let starred = format!("*{pattern}*");
        for text in ["xxabcyy", "b", "", "abab"] {
            assert_eq!(
                glob_matches(text.as_bytes(), starred.as_bytes()),
                glob_matches(text.as_bytes(), pattern.as_bytes())
            );
        }
    }
}
