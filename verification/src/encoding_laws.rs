//! What the Base64 encoding and the texts of numbers stand for.

use vstd::prelude::*;
use vstd::string::*;

use crate::encoding::{
    alphabet_byte, ascii_text, base64_of, byte_or_zero, lemma_alphabet, sextet_at, sextet_of,
};
use crate::text::{decimal_text, digit_char, hex_text};

verus! {

/// The characters of the alphabet, in the order of the values that they stand
/// for.
pub proof fn law_alphabet(k: int)
    requires
        0 <= k < 64,
    ensures
        alphabet_byte(k) as char
            == "ABCDEFGHIJKLMNOPQRSTUVWXYZabcdefghijklmnopqrstuvwxyz0123456789+/"@[k],
{
    let text = "ABCDEFGHIJKLMNOPQRSTUVWXYZabcdefghijklmnopqrstuvwxyz0123456789+/"@;
    reveal_strlit("ABCDEFGHIJKLMNOPQRSTUVWXYZabcdefghijklmnopqrstuvwxyz0123456789+/");
    assert(text[0] == 'A');
    assert(text[1] == 'B');
    assert(text[2] == 'C');
    assert(text[3] == 'D');
    assert(text[4] == 'E');
    assert(text[5] == 'F');
    assert(text[6] == 'G');
    assert(text[7] == 'H');
    assert(text[8] == 'I');
    assert(text[9] == 'J');
    assert(text[10] == 'K');
    assert(text[11] == 'L');
    assert(text[12] == 'M');
    assert(text[13] == 'N');
    assert(text[14] == 'O');
    assert(text[15] == 'P');
    assert(text[16] == 'Q');
    assert(text[17] == 'R');
    assert(text[18] == 'S');
    assert(text[19] == 'T');
    assert(text[20] == 'U');
    assert(text[21] == 'V');
    assert(text[22] == 'W');
    assert(text[23] == 'X');
    assert(text[24] == 'Y');
    assert(text[25] == 'Z');
    assert(text[26] == 'a');
    assert(text[27] == 'b');
    assert(text[28] == 'c');
    assert(text[29] == 'd');
    assert(text[30] == 'e');
    assert(text[31] == 'f');
    assert(text[32] == 'g');
    assert(text[33] == 'h');
    assert(text[34] == 'i');
    assert(text[35] == 'j');
    assert(text[36] == 'k');
    assert(text[37] == 'l');
    assert(text[38] == 'm');
    assert(text[39] == 'n');
    assert(text[40] == 'o');
    assert(text[41] == 'p');
    assert(text[42] == 'q');
    assert(text[43] == 'r');
    assert(text[44] == 's');
    assert(text[45] == 't');
    assert(text[46] == 'u');
    assert(text[47] == 'v');
    assert(text[48] == 'w');
    assert(text[49] == 'x');
    assert(text[50] == 'y');
    assert(text[51] == 'z');
    assert(text[52] == '0');
    assert(text[53] == '1');
    assert(text[54] == '2');
    assert(text[55] == '3');
    assert(text[56] == '4');
    assert(text[57] == '5');
    assert(text[58] == '6');
    assert(text[59] == '7');
    assert(text[60] == '8');
    assert(text[61] == '9');
    assert(text[62] == '+');
    assert(text[63] == '/');
}

/// Three bytes are encoded by four characters whose values, put together, are
/// the same 24 bits. Behind the last whole group, two bytes take three
/// characters and one padding byte, and one byte takes two and two. Bits that
/// are left over are zero.
pub proof fn law_encoded_groups(bytes: Seq<u8>, group: int)
    requires
        0 <= group,
        3 * group < bytes.len(),
    ensures
        base64_of(bytes).len() % 4 == 0,
        base64_of(bytes).len() * 3 >= bytes.len() * 4,
        base64_of(bytes).len() * 3 < bytes.len() * 4 + 12,
        ({
            let code = base64_of(bytes);
            let left = bytes.len() - 3 * group;
            let first = sextet_of(code[4 * group]) * 0x4_0000 + sextet_of(code[4 * group + 1])
                * 0x1000;
            &&& left >= 3 ==> first + sextet_of(code[4 * group + 2]) * 64 + sextet_of(
                code[4 * group + 3],
            ) == bytes[3 * group] * 0x1_0000 + bytes[3 * group + 1] * 0x100 + bytes[3 * group + 2]
            &&& left == 2 ==> first + sextet_of(code[4 * group + 2]) * 64 == bytes[3 * group]
                * 0x1_0000 + bytes[3 * group + 1] * 0x100 && code[4 * group + 3] == '=' as u8
            &&& left == 1 ==> first == bytes[3 * group] * 0x1_0000 && code[4 * group + 2] == '=' as u8
                && code[4 * group + 3] == '=' as u8
        }),
{
    let code = base64_of(bytes);
    let p = 4 * group;
    let q = 3 * group;
    let a = byte_or_zero(bytes, q);
    let b = byte_or_zero(bytes, q + 1);
    let c = byte_or_zero(bytes, q + 2);
    let bits = a * 0x1_0000 + b * 0x100 + c;
    lemma_bits(a as u32, b as u32, c as u32);
    assert(p / 4 == group && (p + 1) / 4 == group && (p + 2) / 4 == group && (p + 3) / 4 == group);
    assert(p % 4 == 0 && (p + 1) % 4 == 1 && (p + 2) % 4 == 2 && (p + 3) % 4 == 3);
    assert(sextet_at(bytes, p) == bits / 0x4_0000 % 64);
    assert(sextet_at(bytes, p + 1) == bits / 0x1000 % 64);
    assert(sextet_at(bytes, p + 2) == bits / 64 % 64);
    assert(sextet_at(bytes, p + 3) == bits % 64);
    lemma_alphabet(bits / 0x4_0000 % 64);
    lemma_alphabet(bits / 0x1000 % 64);
    lemma_alphabet(bits / 64 % 64);
    lemma_alphabet(bits % 64);
    assert(code[p] == alphabet_byte(bits / 0x4_0000 % 64));
    assert(code[p + 1] == alphabet_byte(bits / 0x1000 % 64));
    if bytes.len() - q >= 2 {
        assert(code[p + 2] == alphabet_byte(bits / 64 % 64));
    }
    if bytes.len() - q >= 3 {
        assert(code[p + 3] == alphabet_byte(bits % 64));
    }
}

proof fn lemma_bits(a: u32, b: u32, c: u32)
    by (bit_vector)
    requires
        a < 256,
        b < 256,
        c < 256,
    ensures
        ((a * 0x1_0000 + b * 0x100 + c) / 0x4_0000 % 64) * 0x4_0000 + ((a * 0x1_0000 + b * 0x100
            + c) / 0x1000 % 64) * 0x1000 + ((a * 0x1_0000 + b * 0x100 + c) / 64 % 64) * 64 + (a
            * 0x1_0000 + b * 0x100 + c) % 64 == a * 0x1_0000 + b * 0x100 + c,
        c == 0 ==> (a * 0x1_0000 + b * 0x100 + c) % 64 == 0,
        b == 0 && c == 0 ==> (a * 0x1_0000 + b * 0x100 + c) / 64 % 64 == 0,
{
}

/// The text of ASCII bytes has these bytes as its characters.
pub proof fn law_ascii_text(bytes: Seq<u8>, i: int)
    requires
        0 <= i < bytes.len(),
    ensures
        ascii_text(bytes).len() == bytes.len(),
        ascii_text(bytes)[i] as int == bytes[i] as int,
{
}

/// The number that decimal digits stand for.
pub open spec fn decimal_value(digits: Seq<char>) -> int
    decreases digits.len(),
{
    if digits.len() == 0 {
        0
    } else {
        10 * decimal_value(digits.drop_last()) + (digits.last() as int - '0' as int)
    }
}

/// The decimal text of a number has digits alone, stands for the number, and
/// begins with zero for zero alone.
pub proof fn law_decimal_text(number: nat)
    ensures
        decimal_text(number).len() > 0,
        forall|i: int|
            0 <= i < decimal_text(number).len() ==> '0' <= #[trigger] decimal_text(number)[i]
                <= '9',
        decimal_value(decimal_text(number)) == number,
        number > 0 ==> decimal_text(number)[0] != '0',
    decreases number,
{
    let text = decimal_text(number);
    if number < 10 {
        assert(text.drop_last() =~= Seq::empty());
        assert(decimal_value(text.drop_last()) == 0);
    } else {
        law_decimal_text(number / 10);
        assert(text.drop_last() =~= decimal_text(number / 10));
    }
}

/// The hexadecimal text of a byte has two digits, in small letters, that stand
/// for its upper and its lower half.
pub proof fn law_hex_text(byte: u8)
    ensures
        hex_text(byte).len() == 2,
        forall|i: int|
            0 <= i < 2 ==> '0' <= #[trigger] hex_text(byte)[i] <= '9' || 'a' <= hex_text(byte)[i]
                <= 'f',
        ({
            let high = hex_text(byte)[0] as int;
            let low = hex_text(byte)[1] as int;
            (if high <= '9' as int {
                high - '0' as int
            } else {
                high - 'a' as int + 10
            }) * 16 + (if low <= '9' as int {
                low - '0' as int
            } else {
                low - 'a' as int + 10
            }) == byte
        }),
{
    let high = byte as int / 16;
    let low = byte as int % 16;
    assert(digit_char(high) as int == if high < 10 { 48 + high } else { 87 + high });
    assert(digit_char(low) as int == if low < 10 { 48 + low } else { 87 + low });
}

} // verus!
