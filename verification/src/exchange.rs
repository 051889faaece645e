//! What the ranks of a distributed search tell one another.
//!
//! A rank that takes part in the report of a match sends a payload of fixed
//! length: a flag, and the texts of both keys where the flag is set. At the end
//! every rank sends a summary of two words.

use vstd::prelude::*;
use vstd::string::*;
use vstd::utf8::*;

use crate::encoding::{law_key_text_shape, lemma_encoding_is_ascii, KEY_BYTES, KEY_TEXT_LEN};
use crate::keys::{key_text, optional_texts};
use crate::text::{append_decimal, decimal_text};

verus! {

/// Length of a payload in bytes.
pub const PAYLOAD_LEN: usize = 89;

/// Where the public key begins in a payload.
pub const PUBLIC_AT: usize = 45;

/// Number of words in a summary.
pub const SUMMARY_WORDS: usize = 2;

/// Declares `std::string::FromUtf8Error`.
#[verifier::external_type_specification]
#[verifier::external_body]
pub struct ExFromUtf8Error(std::string::FromUtf8Error);

/// The text that a `std::string::FromUtf8Error` displays.
pub uninterp spec fn utf8_error_text(error: std::string::FromUtf8Error) -> Seq<char>;

/// The error of `String::from_utf8` for bytes that are not UTF-8.
pub uninterp spec fn utf8_error(bytes: Seq<u8>) -> std::string::FromUtf8Error;

/// Calls `String::from_utf8`.
///
/// Claims that it succeeds exactly on UTF-8, with the text that the bytes
/// encode, and that an error depends on the bytes alone.
#[verifier::external_body]
fn text_from_utf8(bytes: Vec<u8>) -> (result: Result<String, std::string::FromUtf8Error>)
    ensures
        match result {
            Ok(text) => valid_utf8(bytes@) && text@ == decode_utf8(bytes@),
            Err(error) => !valid_utf8(bytes@) && error == utf8_error(bytes@),
        },
{
    String::from_utf8(bytes)
}

/// Calls `to_string` of `std::string::FromUtf8Error` and names the text.
#[verifier::external_body]
fn display_utf8_error(error: &std::string::FromUtf8Error) -> (text: String)
    ensures
        text@ == utf8_error_text(*error),
{
    error.to_string()
}

/// What can be wrong with what a rank sends.
#[derive(Clone, Debug)]
pub enum ExchangeError {
    /// A payload has the wrong length.
    MatchPayload {
        /// The rank that sent it.
        rank: u64,
    },
    /// A summary has the wrong length.
    Summary {
        /// The rank that sent it.
        rank: u64,
    },
    /// A key is not UTF-8.
    Text(String),
}

impl ExchangeError {
    /// The text that [`ExchangeError::message`] gives.
    pub open spec fn message_text(self) -> Seq<char> {
        match self {
            ExchangeError::MatchPayload { rank } => "MPI rank "@ + decimal_text(rank as nat)
                + " sent an invalid match payload"@,
            ExchangeError::Summary { rank } => "MPI rank "@ + decimal_text(rank as nat)
                + " sent an invalid summary"@,
            ExchangeError::Text(error) => error@,
        }
    }

    /// Describes the error in one line.
    pub fn message(&self) -> (text: String)
        ensures
            text@ == self.message_text(),
            match *self {
                ExchangeError::MatchPayload { rank } => text@ == "MPI rank "@ + decimal_text(
                    rank as nat,
                ) + " sent an invalid match payload"@,
                ExchangeError::Summary { rank } => text@ == "MPI rank "@ + decimal_text(rank as nat)
                    + " sent an invalid summary"@,
                ExchangeError::Text(error) => text@ == error@,
            },
    {
        let mut text = String::new();
        match self {
            ExchangeError::MatchPayload { rank } => {
                text.append("MPI rank ");
                append_decimal(&mut text, *rank);
                text.append(" sent an invalid match payload");
            },
            ExchangeError::Summary { rank } => {
                text.append("MPI rank ");
                append_decimal(&mut text, *rank);
                text.append(" sent an invalid summary");
            },
            ExchangeError::Text(error) => text.append(error.as_str()),
        }
        assert(text@ =~= self.message_text());
        text
    }
}

/// The payload that reports a match, or that there is none.
pub open spec fn payload_of(found: Option<(Seq<char>, Seq<char>)>) -> Seq<u8> {
    match found {
        Some((private, public)) => seq![1u8] + encode_utf8(private) + encode_utf8(public),
        None => Seq::new(PAYLOAD_LEN as nat, |i: int| 0u8),
    }
}

/// Whether the texts of both keys fill their places in a payload.
pub open spec fn fills_payload(found: Option<(Seq<char>, Seq<char>)>) -> bool {
    match found {
        Some((private, public)) => {
            &&& encode_utf8(private).len() == KEY_TEXT_LEN
            &&& encode_utf8(public).len() == KEY_TEXT_LEN
        },
        None => true,
    }
}

/// The bytes of the private key in a payload.
pub open spec fn private_part(payload: Seq<u8>) -> Seq<u8> {
    payload.subrange(1, PUBLIC_AT as int)
}

/// The bytes of the public key in a payload.
pub open spec fn public_part(payload: Seq<u8>) -> Seq<u8> {
    payload.subrange(PUBLIC_AT as int, PAYLOAD_LEN as int)
}

/// The keypair that a payload reports, where its keys are UTF-8.
pub open spec fn reported(payload: Seq<u8>) -> Option<(Seq<char>, Seq<char>)> {
    if payload[0] == 1 {
        Some((decode_utf8(private_part(payload)), decode_utf8(public_part(payload))))
    } else {
        None
    }
}

/// Whether the keys that a payload reports are UTF-8.
pub open spec fn is_readable(payload: Seq<u8>) -> bool {
    payload[0] == 1 ==> valid_utf8(private_part(payload)) && valid_utf8(public_part(payload))
}

/// The text of the error for a payload whose keys are not both UTF-8: that of
/// the first one that is not.
pub open spec fn unreadable_text(payload: Seq<u8>) -> Seq<char> {
    if valid_utf8(private_part(payload)) {
        utf8_error_text(utf8_error(public_part(payload)))
    } else {
        utf8_error_text(utf8_error(private_part(payload)))
    }
}

fn copy_part(bytes: &[u8], start: usize, end: usize) -> (part: Vec<u8>)
    requires
        start <= end <= bytes@.len(),
    ensures
        part@ == bytes@.subrange(start as int, end as int),
{
    let mut part: Vec<u8> = Vec::new();
    let mut i: usize = start;
    while i < end
        invariant
            start <= i <= end <= bytes@.len(),
            part@ == bytes@.subrange(start as int, i as int),
        decreases end - i,
    {
        part.push(bytes[i]);
        i += 1;
        assert(part@ =~= bytes@.subrange(start as int, i as int));
    }
    part
}

/// Writes a match, or that there is none, as a payload.
pub fn encode_match(found: &Option<(String, String)>) -> (payload: Vec<u8>)
    requires
        fills_payload(optional_texts(*found)),
    ensures
        payload@ == payload_of(optional_texts(*found)),
        payload@.len() == PAYLOAD_LEN,
        *found matches Some(pair) ==> {
            &&& payload@[0] == 1
            &&& payload@.subrange(1, 45) == encode_utf8(pair.0@)
            &&& payload@.subrange(45, 89) == encode_utf8(pair.1@)
        },
        *found is None ==> forall|i: int| 0 <= i < 89 ==> #[trigger] payload@[i] == 0,
{
    let mut payload: Vec<u8> = Vec::new();
    match found {
        Some(pair) => {
            let private = pair.0.as_str().as_bytes();
            let public = pair.1.as_str().as_bytes();
            payload.push(1);
            let mut i: usize = 0;
            while i < private.len()
                invariant
                    i <= private@.len(),
                    payload@ == seq![1u8] + private@.take(i as int),
                decreases private@.len() - i,
            {
                payload.push(private[i]);
                i += 1;
                assert(payload@ =~= seq![1u8] + private@.take(i as int));
            }
            assert(private@.take(i as int) =~= private@);
            let mut j: usize = 0;
            while j < public.len()
                invariant
                    j <= public@.len(),
                    payload@ == seq![1u8] + private@ + public@.take(j as int),
                decreases public@.len() - j,
            {
                payload.push(public[j]);
                j += 1;
                assert(payload@ =~= seq![1u8] + private@ + public@.take(j as int));
            }
            assert(public@.take(j as int) =~= public@);
            assert(payload@.subrange(1, 45) =~= private@);
            assert(payload@.subrange(45, 89) =~= public@);
        },
        None => {
            let mut i: usize = 0;
            while i < PAYLOAD_LEN
                invariant
                    i <= PAYLOAD_LEN,
                    payload@.len() == i,
                    forall|k: int| 0 <= k < i ==> #[trigger] payload@[k] == 0,
                decreases PAYLOAD_LEN - i,
            {
                payload.push(0);
                i += 1;
            }
            assert(payload@ =~= payload_of(None));
        },
    }
    payload
}

/// Reads the match that a payload reports.
pub fn decode_match(payload: &[u8]) -> (result: Result<Option<(String, String)>, ExchangeError>)
    requires
        payload@.len() == PAYLOAD_LEN,
    ensures
        match result {
            Ok(found) => is_readable(payload@) && optional_texts(found) == reported(payload@),
            Err(error) => {
                &&& !is_readable(payload@)
                &&& error matches ExchangeError::Text(text)
                &&& text@ == unreadable_text(payload@)
            },
        },
        result matches Ok(Some(pair)) ==> {
            &&& payload@[0] == 1
            &&& encode_utf8(pair.0@) == payload@.subrange(1, 45)
            &&& encode_utf8(pair.1@) == payload@.subrange(45, 89)
        },
        result matches Ok(None) ==> payload@[0] != 1,
        result is Err ==> payload@[0] == 1 && !(valid_utf8(payload@.subrange(1, 45))
            && valid_utf8(payload@.subrange(45, 89))),
{
    if payload[0] != 1 {
        return Ok(None);
    }
    let private = match text_from_utf8(copy_part(payload, 1, PUBLIC_AT)) {
        Ok(private) => private,
        Err(error) => return Err(ExchangeError::Text(display_utf8_error(&error))),
    };
    let public = match text_from_utf8(copy_part(payload, PUBLIC_AT, PAYLOAD_LEN)) {
        Ok(public) => public,
        Err(error) => return Err(ExchangeError::Text(display_utf8_error(&error))),
    };
    proof {
        decode_utf8_encode_utf8(private_part(payload@));
        decode_utf8_encode_utf8(public_part(payload@));
    }
    Ok(Some((private, public)))
}

/// Keeps the match selected so far, or else takes the one that a rank sent.
///
/// A payload of the wrong length is refused in any case; what it holds is read
/// where no match is selected yet.
pub fn select_match(selected: Option<(String, String)>, rank: u64, received: &[u8]) -> (result:
    Result<Option<(String, String)>, ExchangeError>)
    ensures
        match result {
            Ok(found) => {
                &&& received@.len() == PAYLOAD_LEN
                &&& selected is Some ==> found == selected
                &&& selected is None ==> is_readable(received@) && optional_texts(found)
                    == reported(received@)
            },
            Err(ExchangeError::MatchPayload { rank: sender }) => received@.len() != PAYLOAD_LEN
                && sender == rank,
            Err(ExchangeError::Text(text)) => {
                &&& received@.len() == PAYLOAD_LEN
                &&& selected is None
                &&& !is_readable(received@)
                &&& text@ == unreadable_text(received@)
            },
            Err(ExchangeError::Summary { .. }) => false,
        },
        result matches Ok(found) ==> {
            &&& received@.len() == 89
            &&& selected matches Some(kept) ==> found == Some(kept)
            &&& selected is None && received@[0] != 1 ==> found is None
            &&& selected is None && received@[0] == 1 ==> (found matches Some(pair) && encode_utf8(
                pair.0@,
            ) == received@.subrange(1, 45) && encode_utf8(pair.1@) == received@.subrange(45, 89))
        },
        selected is Some ==> (result is Ok <==> received@.len() == 89),
{
    if received.len() != PAYLOAD_LEN {
        return Err(ExchangeError::MatchPayload { rank });
    }
    match selected {
        Some(pair) => Ok(Some(pair)),
        None => decode_match(received),
    }
}

/// A sum, or the largest word where the sum does not fit.
pub open spec fn saturated(sum: int) -> int {
    if sum > u64::MAX {
        u64::MAX as int
    } else {
        sum
    }
}

/// Adds the candidates of a summary to the total.
pub fn add_summary(total: u64, rank: u64, summary: &[u64]) -> (result: Result<u64, ExchangeError>)
    ensures
        match result {
            Ok(sum) => summary@.len() == SUMMARY_WORDS && sum == saturated(total + summary@[0]),
            Err(error) => summary@.len() != SUMMARY_WORDS && error == (ExchangeError::Summary {
                rank,
            }),
        },
        result is Ok <==> summary@.len() == 2,
        result matches Ok(sum) ==> sum == if total + summary@[0] <= u64::MAX {
            total + summary@[0]
        } else {
            u64::MAX as int
        },
{
    if summary.len() != SUMMARY_WORDS {
        return Err(ExchangeError::Summary { rank });
    }
    Ok(total.saturating_add(summary[0]))
}

/// The texts of any two keys fill a payload.
pub proof fn law_keys_fill_payload(private: Seq<u8>, public: Seq<u8>)
    requires
        private.len() == KEY_BYTES,
        public.len() == KEY_BYTES,
    ensures
        fills_payload(Some((key_text(private), key_text(public)))),
{
    law_key_text_shape(private);
    law_key_text_shape(public);
    lemma_encoding_is_ascii(private);
    lemma_encoding_is_ascii(public);
}

/// What a rank reports comes back unchanged: the payload of a match is read as
/// that match, and the payload of none as none.
pub proof fn law_payload_roundtrip(found: Option<(Seq<char>, Seq<char>)>)
    requires
        fills_payload(found),
    ensures
        payload_of(found).len() == PAYLOAD_LEN,
        is_readable(payload_of(found)),
        reported(payload_of(found)) == found,
{
    if let Some((private, public)) = found {
        let payload = payload_of(found);
        assert(private_part(payload) =~= encode_utf8(private));
        assert(public_part(payload) =~= encode_utf8(public));
        encode_utf8_valid_utf8(private);
        encode_utf8_valid_utf8(public);
        encode_utf8_decode_utf8(private);
        encode_utf8_decode_utf8(public);
    }
}

} // verus!
