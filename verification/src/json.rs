//! Compact JSON, as the `serde_json` crate writes it.
//!
//! Texts, numbers and lists of bytes are written by `serde_json`; what it
//! writes is stated here. Objects are put together from them elsewhere.
use crate::codec::{append, utf8};
use vstd::prelude::*;

verus! {

/// `serde_json::Error`.
#[verifier::external_type_specification]
#[verifier::external_body]
pub struct ExJsonError(serde_json::Error);

/// A number in decimal digits.
pub open spec fn decimal(value: nat) -> Seq<u8>
    decreases value,
{
    if value < 10 {
        seq![(0x30 + value) as u8]
    } else {
        decimal(value / 10).push((0x30 + value % 10) as u8)
    }
}

/// Numbers in decimal digits, with commas between them.
pub open spec fn comma_separated(bytes: Seq<u8>) -> Seq<u8>
    decreases bytes.len(),
{
    if bytes.len() == 0 {
        Seq::empty()
    } else if bytes.len() == 1 {
        decimal(bytes[0] as nat)
    } else {
        comma_separated(bytes.drop_last()).push(0x2c) + decimal(bytes.last() as nat)
    }
}

/// A list of bytes: their numbers in brackets.
pub open spec fn json_bytes(bytes: Seq<u8>) -> Seq<u8> {
    seq![0x5bu8] + comma_separated(bytes).push(0x5d)
}

/// The lower-case hexadecimal digit of a value below sixteen.
pub open spec fn hex_digit(value: int) -> u8 {
    if value < 10 {
        (0x30 + value) as u8
    } else {
        (0x57 + value) as u8
    }
}

/// How a character stands in a text: quotation marks, backslashes and control
/// characters are escaped, all others stand for themselves.
pub open spec fn escaped_char(c: char) -> Seq<u8> {
    let code = c as int;
    if code == 0x22 {
        seq![0x5cu8, 0x22]
    } else if code == 0x5c {
        seq![0x5cu8, 0x5c]
    } else if code == 0x08 {
        seq![0x5cu8, 0x62]
    } else if code == 0x09 {
        seq![0x5cu8, 0x74]
    } else if code == 0x0a {
        seq![0x5cu8, 0x6e]
    } else if code == 0x0c {
        seq![0x5cu8, 0x66]
    } else if code == 0x0d {
        seq![0x5cu8, 0x72]
    } else if code < 0x20 {
        seq![0x5cu8, 0x75, 0x30, 0x30, hex_digit(code / 16), hex_digit(code % 16)]
    } else {
        utf8(seq![c])
    }
}

/// The characters of a text, escaped.
pub open spec fn escaped(text: Seq<char>) -> Seq<u8>
    decreases text.len(),
{
    if text.len() == 0 {
        Seq::empty()
    } else {
        escaped(text.drop_last()) + escaped_char(text.last())
    }
}

/// A text: its characters, escaped, in quotation marks.
pub open spec fn json_text(text: Seq<char>) -> Seq<u8> {
    seq![0x22u8] + escaped(text).push(0x22)
}

/// `serde_json::to_vec` on a `str`. It never fails, and writes the text in
/// quotation marks with the escapes of [`escaped_char`].
#[verifier::external_body]
pub(crate) fn text_to_json(text: &str) -> (result: Result<Vec<u8>, serde_json::Error>)
    ensures
        result is Ok,
        result->Ok_0@ == json_text(text@),
{
    serde_json::to_vec(text)
}

/// `serde_json::to_vec` on a slice of bytes. It never fails, and writes their
/// numbers in brackets with commas between them.
#[verifier::external_body]
pub(crate) fn bytes_to_json(bytes: &[u8]) -> (result: Result<Vec<u8>, serde_json::Error>)
    ensures
        result is Ok,
        result->Ok_0@ == json_bytes(bytes@),
{
    serde_json::to_vec(bytes)
}

/// `serde_json::to_vec` on a `u64`. It never fails, and writes decimal digits.
#[verifier::external_body]
pub(crate) fn number_to_json(value: u64) -> (result: Result<Vec<u8>, serde_json::Error>)
    ensures
        result is Ok,
        result->Ok_0@ == decimal(value as nat),
{
    serde_json::to_vec(&value)
}

/// Appends a text after its name.
pub(crate) fn put_text(out: &mut Vec<u8>, name: &str, text: &str)
    ensures
        final(out)@ == old(out)@ + utf8(name@) + json_text(text@),
{
    append(out, name.as_bytes());
    append(out, text_to_json(text).unwrap().as_slice());
}

/// Appends a list of bytes after its name.
pub(crate) fn put_list(out: &mut Vec<u8>, name: &str, bytes: &[u8])
    ensures
        final(out)@ == old(out)@ + utf8(name@) + json_bytes(bytes@),
{
    append(out, name.as_bytes());
    append(out, bytes_to_json(bytes).unwrap().as_slice());
}

/// Appends a number after its name.
pub(crate) fn put_number(out: &mut Vec<u8>, name: &str, value: u64)
    ensures
        final(out)@ == old(out)@ + utf8(name@) + decimal(value as nat),
{
    append(out, name.as_bytes());
    append(out, number_to_json(value).unwrap().as_slice());
}

/// A byte has up to three decimal digits.
proof fn decimal_of_byte(value: nat)
    requires
        value < 256,
    ensures
        1 <= decimal(value).len() <= 3,
{
    reveal_with_fuel(decimal, 3);
}

/// A list of bytes takes up to four bytes for each of them.
pub proof fn json_bytes_len(bytes: Seq<u8>)
    ensures
        2 <= json_bytes(bytes).len() <= 4 * bytes.len() + 2,
{
    comma_separated_len(bytes);
}

/// Numbers with commas between them take up to four bytes for each.
proof fn comma_separated_len(bytes: Seq<u8>)
    ensures
        comma_separated(bytes).len() <= 4 * bytes.len(),
    decreases bytes.len(),
{
    if bytes.len() == 1 {
        decimal_of_byte(bytes[0] as nat);
    } else if bytes.len() > 1 {
        decimal_of_byte(bytes.last() as nat);
        comma_separated_len(bytes.drop_last());
    }
}

} // verus!
