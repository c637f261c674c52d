//! Texts and small byte values: comparison, hexadecimal, character classes.
use crate::codec::{text_from_utf8, utf8, utf8_injective};
use vstd::prelude::*;
use vstd::utf8::*;

verus! {

/// A hexadecimal digit in lower case, as a byte.
pub open spec fn is_lower_hex(byte: u8) -> bool {
    (0x30 <= byte <= 0x39) || (0x61 <= byte <= 0x66)
}

/// A hexadecimal digit in either case, as a byte.
pub open spec fn is_hex(byte: u8) -> bool {
    is_lower_hex(byte) || (0x41 <= byte <= 0x46)
}

/// An ASCII letter or digit, as a byte.
pub open spec fn is_alphanumeric(byte: u8) -> bool {
    (0x30 <= byte <= 0x39) || (0x41 <= byte <= 0x5a) || (0x61 <= byte <= 0x7a)
}

/// The form of DeviceIDs and PairIDs: thirty-two lower-case hexadecimal digits.
pub open spec fn is_id(text: Seq<char>) -> bool {
    let bytes = utf8(text);
    bytes.len() == 32 && forall|i: int| 0 <= i < 32 ==> is_lower_hex(#[trigger] bytes[i])
}

/// The lower-case hexadecimal digit of a value below sixteen.
pub open spec fn hex_digit(value: int) -> char {
    if value < 10 {
        (0x30 + value) as char
    } else {
        (0x57 + value) as char
    }
}

/// Two lower-case hexadecimal digits per byte.
pub open spec fn hex(bytes: Seq<u8>) -> Seq<char> {
    Seq::new(
        2 * bytes.len(),
        |i: int|
            if i % 2 == 0 {
                hex_digit(bytes[i / 2] as int / 16)
            } else {
                hex_digit(bytes[i / 2] as int % 16)
            },
    )
}

/// The value of a hexadecimal digit given as a byte.
pub open spec fn hex_digit_value(byte: u8) -> int {
    if byte <= 0x39 {
        byte - 0x30
    } else if byte <= 0x46 {
        byte - 0x41 + 10
    } else {
        byte - 0x61 + 10
    }
}

/// The bytes that pairs of hexadecimal digits stand for.
pub open spec fn unhex(digits: Seq<u8>) -> Seq<u8> {
    Seq::new(
        digits.len() / 2,
        |i: int| (hex_digit_value(digits[2 * i]) * 16 + hex_digit_value(digits[2 * i + 1])) as u8,
    )
}

/// Unicode's `White_Space` property.
pub open spec fn is_white_space(c: char) -> bool {
    let code = c as int;
    ||| 0x09 <= code <= 0x0d
    ||| code == 0x20
    ||| code == 0x85
    ||| code == 0xa0
    ||| code == 0x1680
    ||| 0x2000 <= code <= 0x200a
    ||| code == 0x2028
    ||| code == 0x2029
    ||| code == 0x202f
    ||| code == 0x205f
    ||| code == 0x3000
}

/// A text without its leading and trailing white space.
pub open spec fn trimmed(text: Seq<char>) -> Seq<char>
    decreases text.len(),
{
    if text.len() == 0 {
        text
    } else if is_white_space(text.first()) {
        trimmed(text.drop_first())
    } else if is_white_space(text.last()) {
        trimmed(text.drop_last())
    } else {
        text
    }
}

/// Hexadecimal text has one UTF-8 byte per digit, each a lower-case digit.
pub proof fn hex_is_lower_hex(bytes: Seq<u8>)
    ensures
        hex(bytes).len() == 2 * bytes.len(),
        utf8(hex(bytes)).len() == 2 * bytes.len(),
        forall|i: int|
            0 <= i < 2 * bytes.len() ==> #[trigger] utf8(hex(bytes))[i] == hex(bytes)[i] as u8,
        forall|i: int| 0 <= i < 2 * bytes.len() ==> is_lower_hex(#[trigger] utf8(hex(bytes))[i]),
{
    let text = hex(bytes);
    assert forall|i: int| 0 <= i < text.len() implies {
        let c = #[trigger] text[i];
        (0x30 <= c as int <= 0x39) || (0x61 <= c as int <= 0x66)
    } by {
        assert(0 <= i / 2 < bytes.len());
    }
    assert(is_ascii_chars(text));
    is_ascii_chars_encode_utf8(text);
}

/// The hexadecimal text of sixteen bytes has the form of an ID.
pub proof fn hex_of_16_is_id(bytes: Seq<u8>)
    requires
        bytes.len() == 16,
    ensures
        is_id(hex(bytes)),
{
    hex_is_lower_hex(bytes);
}

/// Whether one byte string comes before another in lexicographic order.
pub open spec fn bytes_less(a: Seq<u8>, b: Seq<u8>) -> bool
    decreases a.len(),
{
    if b.len() == 0 {
        false
    } else if a.len() == 0 {
        true
    } else if a[0] != b[0] {
        a[0] < b[0]
    } else {
        bytes_less(a.drop_first(), b.drop_first())
    }
}

/// The lexicographic order is strict and transitive.
pub proof fn bytes_less_transitive(a: Seq<u8>, b: Seq<u8>, c: Seq<u8>)
    requires
        bytes_less(a, b),
        bytes_less(b, c),
    ensures
        bytes_less(a, c),
    decreases a.len(),
{
    if a.len() > 0 && b.len() > 0 && c.len() > 0 && a[0] == b[0] && b[0] == c[0] {
        bytes_less_transitive(a.drop_first(), b.drop_first(), c.drop_first());
    }
}

/// Of two different byte strings exactly one comes before the other.
pub proof fn bytes_less_total(a: Seq<u8>, b: Seq<u8>)
    ensures
        a == b ==> !bytes_less(a, b) && !bytes_less(b, a),
        a != b ==> bytes_less(a, b) != bytes_less(b, a),
    decreases a.len(),
{
    if a.len() > 0 && b.len() > 0 && a[0] == b[0] {
        bytes_less_total(a.drop_first(), b.drop_first());
        assert(a =~= seq![a[0]] + a.drop_first());
        assert(b =~= seq![b[0]] + b.drop_first());
    } else if a.len() == 0 && b.len() == 0 {
        assert(a =~= b);
    }
}

/// Whether one text comes before another in the order of their UTF-8 bytes.
pub fn str_less(a: &str, b: &str) -> (result: bool)
    ensures
        result == bytes_less(utf8(a@), utf8(b@)),
{
    let x = a.as_bytes();
    let y = b.as_bytes();
    let mut i: usize = 0;
    assert(x@.skip(0) =~= x@);
    assert(y@.skip(0) =~= y@);
    while i < x.len() && i < y.len()
        invariant
            i <= x@.len(),
            i <= y@.len(),
            x@ == utf8(a@),
            y@ == utf8(b@),
            bytes_less(x@, y@) == bytes_less(x@.skip(i as int), y@.skip(i as int)),
        decreases x@.len() - i,
    {
        if x[i] != y[i] {
            return x[i] < y[i];
        }
        assert(x@.skip(i as int).drop_first() =~= x@.skip(i + 1));
        assert(y@.skip(i as int).drop_first() =~= y@.skip(i + 1));
        i = i + 1;
    }
    i < y.len()
}

/// Whether two byte slices hold the same bytes.
pub fn bytes_eq(a: &[u8], b: &[u8]) -> (result: bool)
    ensures
        result == (a@ == b@),
{
    if a.len() != b.len() {
        return false;
    }
    let mut i: usize = 0;
    while i < a.len()
        invariant
            a@.len() == b@.len(),
            i <= a@.len(),
            forall|j: int| 0 <= j < i ==> a@[j] == b@[j],
        decreases a@.len() - i,
    {
        if a[i] != b[i] {
            return false;
        }
        i = i + 1;
    }
    assert(a@ =~= b@);
    true
}

/// Whether `bytes` begins with `prefix`.
pub fn starts_with(bytes: &[u8], prefix: &[u8]) -> (result: bool)
    ensures
        result == (bytes@.len() >= prefix@.len() && bytes@.subrange(0, prefix@.len() as int)
            == prefix@),
{
    if bytes.len() < prefix.len() {
        return false;
    }
    bytes_eq(vstd::slice::slice_subrange(bytes, 0, prefix.len()), prefix)
}

/// Whether two texts are the same.
pub fn str_eq(a: &str, b: &str) -> (result: bool)
    ensures
        result == (a@ == b@),
{
    let same: bool = bytes_eq(a.as_bytes(), b.as_bytes());
    proof {
        if same {
            utf8_injective(a@, b@);
        }
    }
    same
}

/// Whether a text has the form of a DeviceID or PairID.
pub fn check_id(text: &str) -> (result: bool)
    ensures
        result == is_id(text@),
{
    let bytes = text.as_bytes();
    if bytes.len() != 32 {
        return false;
    }
    let mut i: usize = 0;
    while i < 32
        invariant
            i <= 32,
            bytes@.len() == 32,
            bytes@ == utf8(text@),
            forall|j: int| 0 <= j < i ==> is_lower_hex(#[trigger] bytes@[j]),
        decreases 32 - i,
    {
        let b: u8 = bytes[i];
        if !((0x30 <= b && b <= 0x39) || (0x61 <= b && b <= 0x66)) {
            return false;
        }
        i = i + 1;
    }
    true
}

/// The byte of one lower-case hexadecimal digit.
fn hex_digit_byte(value: u8) -> (result: u8)
    requires
        value < 16,
    ensures
        result == hex_digit(value as int) as u8,
{
    if value < 10 {
        0x30 + value
    } else {
        0x57 + value
    }
}

/// The lower-case hexadecimal text of `bytes`.
pub fn hex_text(bytes: &[u8]) -> (result: String)
    ensures
        result@ == hex(bytes@),
{
    let mut digits: Vec<u8> = Vec::new();
    let mut i: usize = 0;
    proof {
        hex_is_lower_hex(bytes@);
    }
    while i < bytes.len()
        invariant
            i <= bytes@.len(),
            digits@.len() == 2 * i,
            utf8(hex(bytes@)).len() == 2 * bytes@.len(),
            forall|j: int|
                0 <= j < 2 * bytes@.len() ==> #[trigger] utf8(hex(bytes@))[j] == hex(
                    bytes@,
                )[j] as u8,
            forall|j: int| 0 <= j < 2 * i ==> #[trigger] digits@[j] == utf8(hex(bytes@))[j],
        decreases bytes@.len() - i,
    {
        let high: u8 = hex_digit_byte(bytes[i] / 16);
        let low: u8 = hex_digit_byte(bytes[i] % 16);
        proof {
            let h = 2 * i as int;
            assert(utf8(hex(bytes@))[h] == hex(bytes@)[h] as u8);
            assert(utf8(hex(bytes@))[h + 1] == hex(bytes@)[h + 1] as u8);
            assert(h / 2 == i && (h + 1) / 2 == i && h % 2 == 0 && (h + 1) % 2 == 1);
        }
        digits.push(high);
        digits.push(low);
        i = i + 1;
    }
    assert(digits@ =~= utf8(hex(bytes@)));
    proof {
        encode_utf8_valid_utf8(hex(bytes@));
        encode_utf8_decode_utf8(hex(bytes@));
    }
    text_from_utf8(digits.as_slice()).unwrap()
}

/// Thirty-two bytes as an array.
pub fn array_32(bytes: &[u8]) -> (result: [u8; 32])
    requires
        bytes@.len() == 32,
    ensures
        result@ == bytes@,
{
    let mut array: [u8; 32] = [0u8; 32];
    let mut i: usize = 0;
    while i < 32
        invariant
            i <= 32,
            bytes@.len() == 32,
            forall|j: int| 0 <= j < i ==> array@[j] == bytes@[j],
        decreases 32 - i,
    {
        array[i] = bytes[i];
        i = i + 1;
    }
    assert(array@ =~= bytes@);
    array
}

/// Sixty-four bytes as an array.
pub fn array_64(bytes: &[u8]) -> (result: [u8; 64])
    requires
        bytes@.len() == 64,
    ensures
        result@ == bytes@,
{
    let mut array: [u8; 64] = [0u8; 64];
    let mut i: usize = 0;
    while i < 64
        invariant
            i <= 64,
            bytes@.len() == 64,
            forall|j: int| 0 <= j < i ==> array@[j] == bytes@[j],
        decreases 64 - i,
    {
        array[i] = bytes[i];
        i = i + 1;
    }
    assert(array@ =~= bytes@);
    array
}

/// `str::trim`: the text without leading and trailing `White_Space`
/// characters.
#[verifier::external_body]
pub(crate) fn trim(text: &str) -> (result: &str)
    ensures
        result@ == trimmed(text@),
{
    text.trim()
}

} // verus!
