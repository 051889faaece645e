use wg_vanity::exchange::{add_summary, decode_match, encode_match, select_match, ExchangeError};

fn pair(first: char, second: char) -> (String, String) {
    (first.to_string().repeat(44), second.to_string().repeat(44))
}

#[test]
fn matches_come_back() {
    let found = Some(pair('a', 'b'));
    let payload = encode_match(&found);
    assert_eq!(payload.len(), 89);
    assert_eq!(payload[0], 1);
    assert_eq!(&payload[1..45], [b'a'; 44]);
    assert_eq!(&payload[45..89], [b'b'; 44]);
    assert_eq!(decode_match(&payload).unwrap(), found);
    let none = encode_match(&None);
    assert_eq!(none, [0; 89]);
    assert_eq!(decode_match(&none).unwrap(), None);
}

#[test]
fn the_first_match_is_kept() {
    let first = encode_match(&Some(pair('a', 'b')));
    let second = encode_match(&Some(pair('c', 'd')));
    let nothing = encode_match(&None);
    let selected = select_match(None, 1, &nothing).unwrap();
    assert_eq!(selected, None);
    let selected = select_match(selected, 2, &first).unwrap();
    assert_eq!(selected, Some(pair('a', 'b')));
    let selected = select_match(selected, 3, &second).unwrap();
    assert_eq!(selected, Some(pair('a', 'b')));
}

#[test]
fn payloads_of_the_wrong_length_are_refused() {
    for received in [&[1u8; 88][..], &[1u8; 90], &[]] {
        let error = select_match(Some(pair('a', 'b')), 3, received).unwrap_err();
        assert_eq!(error.message(), "MPI rank 3 sent an invalid match payload");
    }
}

#[test]
fn keys_that_are_not_text_are_refused() {
    let mut payload = encode_match(&Some(pair('a', 'b')));
    payload[50] = 0xff;
    let error = select_match(None, 1, &payload).unwrap_err();
    assert_eq!(error.message(), "invalid utf-8 sequence of 1 bytes from index 5");
    payload[3] = 0xff;
    let error = decode_match(&payload).unwrap_err();
    assert_eq!(error.message(), "invalid utf-8 sequence of 1 bytes from index 2");
    assert!(matches!(error, ExchangeError::Text(_)));
    assert!(select_match(Some(pair('c', 'd')), 1, &payload).is_ok());
}

#[test]
fn summaries_are_added() {
    assert_eq!(add_summary(5, 1, &[7, 0]).unwrap(), 12);
    assert_eq!(add_summary(u64::MAX, 1, &[7, 0]).unwrap(), u64::MAX);
    for summary in [&[][..], &[1], &[1, 2, 3]] {
        let error = add_summary(5, 12, summary).unwrap_err();
        assert_eq!(error.message(), "MPI rank 12 sent an invalid summary");
    }
}
