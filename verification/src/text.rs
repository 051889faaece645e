//! ASCII case folding, and numbers as text.

use vstd::prelude::*;
use vstd::string::*;

verus! {

/// Whether a byte is an ASCII capital letter.
pub open spec fn is_upper(byte: u8) -> bool {
    65 <= byte <= 90
}

/// Whether a byte is an ASCII small letter.
pub open spec fn is_lower(byte: u8) -> bool {
    97 <= byte <= 122
}

/// A byte with an ASCII capital letter replaced by the small one.
pub open spec fn lower(byte: u8) -> u8 {
    if is_upper(byte) {
        (byte + 32) as u8
    } else {
        byte
    }
}

/// Bytes with their ASCII capital letters replaced by the small ones.
pub open spec fn lowered(bytes: Seq<u8>) -> Seq<u8> {
    bytes.map_values(|byte: u8| lower(byte))
}

/// Bytes as they are compared: unchanged where case matters, else lowered.
pub open spec fn normalized(bytes: Seq<u8>, case_sensitive: bool) -> Seq<u8> {
    if case_sensitive {
        bytes
    } else {
        lowered(bytes)
    }
}

/// The bytes as they are compared.
pub(crate) fn normalize(bytes: &[u8], case_sensitive: bool) -> (result: Vec<u8>)
    ensures
        result@ == normalized(bytes@, case_sensitive),
{
    let mut result: Vec<u8> = Vec::new();
    let mut i: usize = 0;
    while i < bytes.len()
        invariant
            i <= bytes@.len(),
            result@.len() == i,
            forall|j: int|
                0 <= j < i ==> #[trigger] result@[j] == normalized(bytes@, case_sensitive)[j],
        decreases bytes@.len() - i,
    {
        let byte: u8 = bytes[i];
        if !case_sensitive && 65 <= byte && byte <= 90 {
            result.push(byte + 32);
        } else {
            result.push(byte);
        }
        i += 1;
    }
    assert(result@ =~= normalized(bytes@, case_sensitive));
    result
}

/// The character of a hexadecimal digit.
pub open spec fn digit_char(digit: int) -> char {
    if digit < 10 {
        (48 + digit) as char
    } else {
        (87 + digit) as char
    }
}

/// A number in decimal digits.
pub open spec fn decimal_text(number: nat) -> Seq<char>
    decreases number,
{
    if number < 10 {
        seq![digit_char(number as int)]
    } else {
        decimal_text(number / 10).push(digit_char(number as int % 10))
    }
}

/// A byte in two hexadecimal digits.
pub open spec fn hex_text(byte: u8) -> Seq<char> {
    seq![digit_char(byte as int / 16), digit_char(byte as int % 16)]
}

fn digit(value: u8) -> (text: &'static str)
    requires
        value < 16,
    ensures
        text@ == seq![digit_char(value as int)],
{
    proof {
        reveal_strlit("0");
        reveal_strlit("1");
        reveal_strlit("2");
        reveal_strlit("3");
        reveal_strlit("4");
        reveal_strlit("5");
        reveal_strlit("6");
        reveal_strlit("7");
        reveal_strlit("8");
        reveal_strlit("9");
        reveal_strlit("a");
        reveal_strlit("b");
        reveal_strlit("c");
        reveal_strlit("d");
        reveal_strlit("e");
        reveal_strlit("f");
    }
    match value {
        0 => "0",
        1 => "1",
        2 => "2",
        3 => "3",
        4 => "4",
        5 => "5",
        6 => "6",
        7 => "7",
        8 => "8",
        9 => "9",
        10 => "a",
        11 => "b",
        12 => "c",
        13 => "d",
        14 => "e",
        _ => "f",
    }
}

/// Appends a number in decimal digits.
pub(crate) fn append_decimal(text: &mut String, number: u64)
    ensures
        final(text)@ == old(text)@ + decimal_text(number as nat),
    decreases number,
{
    if number >= 10 {
        append_decimal(text, number / 10);
    }
    text.append(digit((number % 10) as u8));
    assert(text@ =~= old(text)@ + decimal_text(number as nat));
}

/// Appends a byte in two hexadecimal digits.
pub(crate) fn append_hex(text: &mut String, byte: u8)
    ensures
        final(text)@ == old(text)@ + hex_text(byte),
{
    text.append(digit(byte / 16));
    text.append(digit(byte % 16));
    assert(text@ =~= old(text)@ + hex_text(byte));
}

} // verus!
