use x25519_dalek::{PublicKey, StaticSecret};

use wg_vanity::encoding::{alphabet, sextet};
use wg_vanity::keys::{try_keypair, try_private_key};
use wg_vanity::{trial, trial_pattern, PatternKind, SearchPattern};

const PRIVATE_TEXT: &str = "AAECAwQFBgcICQoLDA0ODxAREhMUFRYXGBkaGxwdHh8=";
const PUBLIC_TEXT: &str = "j0DFrbaPJWJK5bIU6nZ6bslNgp09e14a0bpvPiE4KF8=";

fn counting_key() -> [u8; 32] {
    std::array::from_fn(|i| i as u8)
}

fn decode(text: &str) -> Vec<u8> {
    let mut bits = 0u32;
    let mut count = 0;
    let mut bytes = Vec::new();
    for byte in text.bytes().take_while(|&byte| byte != b'=') {
        bits = bits << 6 | u32::from(sextet(byte).unwrap());
        count += 6;
        if count >= 8 {
            count -= 8;
            bytes.push((bits >> count) as u8);
            bits &= (1 << count) - 1;
        }
    }
    bytes
}

fn assert_keypair(private: &str, public: &str) {
    assert_eq!(private.len(), 44);
    assert_eq!(public.len(), 44);
    let secret: [u8; 32] = decode(private).try_into().unwrap();
    let expected = PublicKey::from(&StaticSecret::from(secret));
    assert_eq!(decode(public), expected.as_bytes());
}

#[test]
fn alphabet_is_the_standard_one() {
    let expected = b"ABCDEFGHIJKLMNOPQRSTUVWXYZabcdefghijklmnopqrstuvwxyz0123456789+/";
    for (value, &byte) in expected.iter().enumerate() {
        assert_eq!(alphabet(value as u8), byte);
        assert_eq!(sextet(byte), Some(value as u8));
    }
    for byte in [b'=', b'-', b'_', b' ', 0, 255, b'@', b'[', b'`', b'{', b':'] {
        assert_eq!(sextet(byte), None);
    }
}

#[test]
fn known_private_key_gives_known_texts() {
    let pattern = SearchPattern::new("DFRB", PatternKind::Literal, false).unwrap();
    assert_eq!(
        try_private_key(&pattern, 0, 10, &counting_key()),
        Some((PRIVATE_TEXT.to_string(), PUBLIC_TEXT.to_string()))
    );
    assert_eq!(try_private_key(&pattern, 0, 5, &counting_key()), None);
    assert_eq!(try_private_key(&pattern, 3, 44, &counting_key()), None);
    let sensitive = SearchPattern::new("DFRB", PatternKind::Literal, true).unwrap();
    assert_eq!(try_private_key(&sensitive, 0, 10, &counting_key()), None);
}

#[test]
fn any_keypair_is_encoded() {
    let pattern = SearchPattern::new("8=$", PatternKind::Regex, true).unwrap();
    let (private, public) = try_keypair(&pattern, 0, 44, &counting_key(), &[255; 32]).unwrap();
    assert_eq!(private, PRIVATE_TEXT);
    assert_eq!(public, "//////////////////////////////////////////8=");
    assert_eq!(try_keypair(&pattern, 0, 43, &counting_key(), &[255; 32]), None);
}

#[test]
fn invalid_ranges_find_nothing() {
    let pattern = SearchPattern::new("*", PatternKind::Glob, false).unwrap();
    assert_eq!(trial_pattern(&pattern, 0, 45), None);
    assert_eq!(trial_pattern(&pattern, 2, 1), None);
}

#[test]
fn every_key_matches_a_star() {
    let pattern = SearchPattern::new("*", PatternKind::Glob, false).unwrap();
    let mut seen = Vec::new();
    for _ in 0..20 {
        let (private, public) = trial_pattern(&pattern, 0, 44).unwrap();
        assert_keypair(&private, &public);
        assert!(!seen.contains(&private));
        seen.push(private);
    }
}

#[test]
fn found_text_stands_in_the_public_key() {
    let mut found = 0;
    for _ in 0..2_000 {
        if let Some((private, public)) = trial("aB", 5, 44) {
            assert_keypair(&private, &public);
            assert!(public[5..44].to_ascii_lowercase().contains("ab"));
            found += 1;
        }
    }
    assert!(found > 0);
}

#[test]
fn padding_is_at_the_end() {
    let (_, public) = trial("=", 43, 44).unwrap();
    assert!(public.ends_with('='));
    assert_eq!(trial("=", 0, 43), None);
}

#[test]
fn literals_are_not_globs() {
    assert_eq!(trial("****", 0, 10), None);
    assert_eq!(trial("zzzz", 0, 3), None);
}

#[test]
fn every_key_contains_the_empty_text() {
    let (private, public) = trial("", 0, 0).unwrap();
    assert_keypair(&private, &public);
    assert!(trial("", 44, 44).is_some());
    let pattern = SearchPattern::new("", PatternKind::Literal, true).unwrap();
    assert!(trial_pattern(&pattern, 3, 10).is_some());
    assert_eq!(trial_pattern(&pattern, 0, 45), None);
}
