//! Standard Base64: the alphabet, and the text that encodes a key.

use base64::Engine;
use vstd::prelude::*;
use vstd::utf8::*;

verus! {

/// The padding byte `=`.
pub const PADDING: u8 = 61;

/// Number of bytes in a private or public key.
pub const KEY_BYTES: usize = 32;

/// Number of Base64 characters that encode a key.
pub const KEY_TEXT_LEN: usize = 44;

/// The Base64 character that stands for a six-bit value.
pub open spec fn alphabet_byte(sextet: int) -> u8 {
    if sextet < 26 {
        (65 + sextet) as u8
    } else if sextet < 52 {
        (97 + (sextet - 26)) as u8
    } else if sextet < 62 {
        (48 + (sextet - 52)) as u8
    } else if sextet == 62 {
        43
    } else {
        47
    }
}

/// Whether a byte is one of the 64 characters of the alphabet.
pub open spec fn in_alphabet(byte: u8) -> bool {
    exists|sextet: int| 0 <= sextet < 64 && #[trigger] alphabet_byte(sextet) == byte
}

/// The six-bit value that a character of the alphabet stands for.
pub open spec fn sextet_of(byte: u8) -> int {
    choose|sextet: int| 0 <= sextet < 64 && #[trigger] alphabet_byte(sextet) == byte
}

/// The byte at `index`, or zero behind the end.
pub open spec fn byte_or_zero(bytes: Seq<u8>, index: int) -> int {
    if index < bytes.len() {
        bytes[index] as int
    } else {
        0
    }
}

/// The six-bit value at `position` of `bytes`, read as one string of bits, the
/// highest bit of each byte first.
pub open spec fn sextet_at(bytes: Seq<u8>, position: int) -> int {
    let first = 3 * (position / 4);
    let group = byte_or_zero(bytes, first) * 0x1_0000 + byte_or_zero(bytes, first + 1) * 0x100
        + byte_or_zero(bytes, first + 2);
    if position % 4 == 0 {
        group / 0x4_0000 % 64
    } else if position % 4 == 1 {
        group / 0x1000 % 64
    } else if position % 4 == 2 {
        group / 64 % 64
    } else {
        group % 64
    }
}

/// The padded Base64 encoding of `bytes`.
pub open spec fn base64_of(bytes: Seq<u8>) -> Seq<u8> {
    Seq::new(
        (4 * ((bytes.len() + 2) / 3)) as nat,
        |position: int|
            if 6 * position < 8 * bytes.len() {
                alphabet_byte(sextet_at(bytes, position))
            } else {
                PADDING
            },
    )
}

/// The characters whose codes are `bytes`.
pub open spec fn ascii_text(bytes: Seq<u8>) -> Seq<char> {
    bytes.map_values(|byte: u8| byte as char)
}

/// Calls `base64::Engine::encode` of `base64::engine::general_purpose::STANDARD`.
///
/// Claims that the text is the padded encoding in the standard alphabet. The
/// method panics where the length of the text does not fit its type.
#[verifier::external_body]
pub(crate) fn encode_standard(bytes: &[u8]) -> (text: String)
    requires
        4 * ((bytes@.len() + 2) / 3) <= isize::MAX,
    ensures
        text@ == ascii_text(base64_of(bytes@)),
{
    base64::engine::general_purpose::STANDARD.encode(bytes)
}

/// Each character of the alphabet stands for one six-bit value.
pub proof fn lemma_alphabet(sextet: int)
    requires
        0 <= sextet < 64,
    ensures
        in_alphabet(alphabet_byte(sextet)),
        sextet_of(alphabet_byte(sextet)) == sextet,
        alphabet_byte(sextet) != PADDING,
        alphabet_byte(sextet) < 128,
{
    let byte = alphabet_byte(sextet);
    let found = sextet_of(byte);
    assert(0 <= found < 64 && alphabet_byte(found) == byte);
}

/// The encoding of a key is 44 characters long: 43 characters of the alphabet,
/// none of them the padding byte, and one padding byte at the end.
pub proof fn law_key_text_shape(key: Seq<u8>)
    requires
        key.len() == KEY_BYTES,
    ensures
        base64_of(key).len() == KEY_TEXT_LEN,
        forall|i: int|
            0 <= i < 43 ==> in_alphabet(#[trigger] base64_of(key)[i]) && base64_of(key)[i]
                != PADDING,
        base64_of(key)[43] == PADDING,
{
    assert forall|i: int| 0 <= i < 43 implies in_alphabet(#[trigger] base64_of(key)[i])
        && base64_of(key)[i] != PADDING by {
        lemma_alphabet(sextet_at(key, i));
    }
}

/// The text of an encoding has the encoding as its UTF-8 bytes.
pub proof fn lemma_encoding_is_ascii(bytes: Seq<u8>)
    ensures
        is_ascii_chars(ascii_text(base64_of(bytes))),
        encode_utf8(ascii_text(base64_of(bytes))) == base64_of(bytes),
{
    let code = base64_of(bytes);
    let text = ascii_text(code);
    assert forall|i: int| 0 <= i < code.len() implies (#[trigger] code[i]) < 128 by {
        lemma_alphabet(sextet_at(bytes, i));
    }
    assert forall|i: int| 0 <= i < text.len() implies '\0' <= #[trigger] text[i] <= '\u{7f}' by {
        assert(code[i] < 128);
    }
    is_ascii_chars_encode_utf8(text);
    assert forall|i: int| 0 <= i < code.len() implies encode_utf8(text)[i] == code[i] by {
        assert(code[i] < 128);
        assert(text[i] == code[i] as char);
        assert(text[i] as u8 == code[i]);
    }
    assert(encode_utf8(text) =~= code);
}

/// Equal encodings have equal six-bit values at every position.
proof fn lemma_equal_sextets(left: Seq<u8>, right: Seq<u8>, position: int)
    requires
        left.len() == right.len(),
        base64_of(left) == base64_of(right),
        0 <= position,
        6 * position < 8 * left.len(),
    ensures
        sextet_at(left, position) == sextet_at(right, position),
{
    assert(position < 4 * ((left.len() + 2) / 3));
    assert(base64_of(left)[position] == alphabet_byte(sextet_at(left, position)));
    assert(base64_of(right)[position] == alphabet_byte(sextet_at(right, position)));
    lemma_alphabet(sextet_at(left, position));
    lemma_alphabet(sextet_at(right, position));
}

/// Three bytes are determined by their four six-bit values.
proof fn lemma_group(a: u32, b: u32, c: u32, x: u32, y: u32, z: u32)
    by (bit_vector)
    requires
        a < 256,
        b < 256,
        c < 256,
        x < 256,
        y < 256,
        z < 256,
        (a * 0x1_0000 + b * 0x100 + c) / 0x4_0000 % 64 == (x * 0x1_0000 + y * 0x100 + z) / 0x4_0000
            % 64,
        (a * 0x1_0000 + b * 0x100 + c) / 0x1000 % 64 == (x * 0x1_0000 + y * 0x100 + z) / 0x1000
            % 64,
        (a * 0x1_0000 + b * 0x100 + c) / 64 % 64 == (x * 0x1_0000 + y * 0x100 + z) / 64 % 64,
    ensures
        a == x,
        b == y,
        (a * 0x1_0000 + b * 0x100 + c) % 64 == (x * 0x1_0000 + y * 0x100 + z) % 64 ==> c == z,
{
}

/// Different keys have different encodings.
pub proof fn law_key_text_injective(left: Seq<u8>, right: Seq<u8>)
    requires
        left.len() == KEY_BYTES,
        right.len() == KEY_BYTES,
        base64_of(left) == base64_of(right),
    ensures
        left == right,
{
    assert forall|i: int| 0 <= i < 32 implies left[i] == right[i] by {
        let first = 4 * (i / 3);
        let k = 3 * (i / 3);
        lemma_equal_sextets(left, right, first);
        lemma_equal_sextets(left, right, first + 1);
        lemma_equal_sextets(left, right, first + 2);
        if i < 30 {
            lemma_equal_sextets(left, right, first + 3);
        }
        lemma_group(
            byte_or_zero(left, k) as u32,
            byte_or_zero(left, k + 1) as u32,
            byte_or_zero(left, k + 2) as u32,
            byte_or_zero(right, k) as u32,
            byte_or_zero(right, k + 1) as u32,
            byte_or_zero(right, k + 2) as u32,
        );
    }
    assert(left =~= right);
}

/// The six-bit value of a character of the alphabet.
pub fn sextet(byte: u8) -> (value: Option<u8>)
    ensures
        value is Some <==> in_alphabet(byte),
        value matches Some(sextet) ==> sextet < 64 && sextet == sextet_of(byte),
{
    let value: u8 = if 65 <= byte && byte <= 90 {
        byte - 65
    } else if 97 <= byte && byte <= 122 {
        byte - 97 + 26
    } else if 48 <= byte && byte <= 57 {
        byte - 48 + 52
    } else if byte == 43 {
        62
    } else if byte == 47 {
        63
    } else {
        return None;
    };
    proof {
        lemma_alphabet(value as int);
    }
    Some(value)
}

/// The character of the alphabet that stands for a six-bit value.
pub fn alphabet(sextet: u8) -> (byte: u8)
    requires
        sextet < 64,
    ensures
        byte == alphabet_byte(sextet as int),
{
    if sextet < 26 {
        65 + sextet
    } else if sextet < 52 {
        97 + (sextet - 26)
    } else if sextet < 62 {
        48 + (sextet - 52)
    } else if sextet == 62 {
        43
    } else {
        47
    }
}

} // verus!
