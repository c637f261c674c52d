//! How texts, numbers, messages and grants are written, and that each can be
//! read in one way only.
use crate::capability::{capability_lines, grants_json};
use crate::certified::nibble;
use crate::codec::utf8;
use crate::json::{comma_separated, decimal, escaped, escaped_char, json_bytes, json_text};
use crate::readback::{lists_differ, same_rest, texts_differ};
use crate::runtime_v3::{message_json, MessageView};
use vstd::prelude::*;
use vstd::utf8::*;

verus! {

// ---------------------------------------------------------------------------
// Texts and numbers.
// ---------------------------------------------------------------------------
/// The bytes of two texts, one after the other, are those of both together.
proof fn texts_follow(a: Seq<char>, b: Seq<char>)
    ensures
        utf8(a + b) == utf8(a) + utf8(b),
    decreases a.len(),
{
    if a.len() == 0 {
        assert(a + b =~= b);
        assert(utf8(a) =~= Seq::empty()) by {
            reveal_with_fuel(encode_utf8, 1);
        }
        assert(utf8(a) + utf8(b) =~= utf8(b));
    } else {
        let rest = a.drop_first();
        texts_follow(rest, b);
        encode_utf8_first_scalar(a);
        encode_utf8_first_scalar(a + b);
        assert((a + b).drop_first() =~= rest + b);
        assert((a + b)[0] == a[0]);
        assert(utf8(a) == encode_scalar(a[0] as u32) + utf8(rest));
        assert(utf8(a + b) == encode_scalar(a[0] as u32) + utf8(rest + b));
        assert(utf8(a + b) =~= utf8(a) + utf8(b));
    }
}

/// A text without quotation marks, backslashes and control characters stands
/// between quotation marks as it is.
pub proof fn plain_texts_are_quoted(text: Seq<char>)
    requires
        forall|k: int|
            0 <= k < text.len() ==> (#[trigger] text[k]) as int >= 0x20 && text[k] != '"' && text[k]
                != '\\',
    ensures
        json_text(text) == seq![0x22u8] + utf8(text) + seq![0x22u8],
{
    plain_texts_are_not_escaped(text);
    assert(json_text(text) =~= seq![0x22u8] + utf8(text) + seq![0x22u8]);
}

/// Such a text is not escaped.
proof fn plain_texts_are_not_escaped(text: Seq<char>)
    requires
        forall|k: int|
            0 <= k < text.len() ==> (#[trigger] text[k]) as int >= 0x20 && text[k] != '"' && text[k]
                != '\\',
    ensures
        escaped(text) == utf8(text),
    decreases text.len(),
{
    if text.len() > 0 {
        let rest = text.drop_last();
        assert(forall|k: int| 0 <= k < rest.len() ==> #[trigger] rest[k] == text[k]);
        plain_texts_are_not_escaped(rest);
        texts_follow(rest, seq![text.last()]);
        assert(rest + seq![text.last()] =~= text);
        assert(text.last() == text[text.len() - 1]);
    } else {
        assert(utf8(text) =~= Seq::empty()) by {
            reveal_with_fuel(encode_utf8, 1);
        }
    }
}

/// A quotation mark and a backslash stand behind a backslash, and so do the
/// letters for line feed, carriage return, tab, backspace and form feed; any
/// other control character is written with `u` and four hexadecimal digits.
pub proof fn other_characters_are_escaped(c: char)
    ensures
        escaped_char('"') == utf8("\\\""@),
        escaped_char('\\') == utf8("\\\\"@),
        escaped_char('\n') == utf8("\\n"@),
        escaped_char('\r') == utf8("\\r"@),
        escaped_char('\t') == utf8("\\t"@),
        escaped_char('\u{8}') == utf8("\\b"@),
        escaped_char('\u{c}') == utf8("\\f"@),
        (c < ' ' && c != '\n' && c != '\r' && c != '\t' && c != '\u{8}' && c != '\u{c}') ==> {
            let e = escaped_char(c);
            &&& e.len() == 6
            &&& e.take(4) == utf8("\\u00"@)
            &&& nibble(e[4] as char) * 16 + nibble(e[5] as char) == c as int
        },
{
    reveal_strlit("\\u00");
    is_ascii_chars_encode_utf8("\\u00"@);
    if c < ' ' && c != '\n' && c != '\r' && c != '\t' && c != '\u{8}' && c != '\u{c}' {
        assert(escaped_char(c).take(4) =~= utf8("\\u00"@));
    }
    reveal_strlit("\\\"");
    reveal_strlit("\\\\");
    reveal_strlit("\\n");
    reveal_strlit("\\r");
    reveal_strlit("\\t");
    reveal_strlit("\\b");
    reveal_strlit("\\f");
    is_ascii_chars_encode_utf8("\\\""@);
    is_ascii_chars_encode_utf8("\\\\"@);
    is_ascii_chars_encode_utf8("\\n"@);
    is_ascii_chars_encode_utf8("\\r"@);
    is_ascii_chars_encode_utf8("\\t"@);
    is_ascii_chars_encode_utf8("\\b"@);
    is_ascii_chars_encode_utf8("\\f"@);
    assert(escaped_char('"') =~= utf8("\\\""@));
    assert(escaped_char('\\') =~= utf8("\\\\"@));
    assert(escaped_char('\n') =~= utf8("\\n"@));
    assert(escaped_char('\r') =~= utf8("\\r"@));
    assert(escaped_char('\t') =~= utf8("\\t"@));
    assert(escaped_char('\u{8}') =~= utf8("\\b"@));
    assert(escaped_char('\u{c}') =~= utf8("\\f"@));
}

/// The number that decimal digits stand for.
pub open spec fn number_of(digits: Seq<u8>) -> int
    decreases digits.len(),
{
    if digits.len() == 0 {
        0
    } else {
        10 * number_of(digits.drop_last()) + (digits.last() - 0x30)
    }
}

/// A number is written in the digits that stand for it, without a zero in front
/// unless it is zero.
pub proof fn numbers_are_written_in_decimal(value: nat)
    ensures
        decimal(value).len() > 0,
        number_of(decimal(value)) == value,
        forall|k: int|
            0 <= k < decimal(value).len() ==> 0x30 <= #[trigger] decimal(value)[k] <= 0x39,
        value > 0 ==> decimal(value)[0] != 0x30,
        value == 0 ==> decimal(value).len() == 1,
    decreases value,
{
    let digits = decimal(value);
    if value >= 10 {
        numbers_are_written_in_decimal(value / 10);
        assert(digits.drop_last() =~= decimal(value / 10));
        assert(digits[0] == decimal(value / 10)[0]);
    } else {
        reveal_with_fuel(number_of, 2);
        assert(digits.drop_last() =~= Seq::empty());
    }
}

/// A list of bytes stands between brackets; where there are two or more, a comma
/// stands before the last.
pub proof fn lists_are_bracketed(bytes: Seq<u8>, last: u8)
    ensures
        json_bytes(Seq::empty()) == utf8("[]"@),
        json_bytes(seq![last]) == utf8("["@) + decimal(last as nat) + utf8("]"@),
        bytes.len() > 0 ==> json_bytes(bytes.push(last)) == json_bytes(bytes).drop_last() + utf8(
            ","@,
        ) + decimal(last as nat) + utf8("]"@),
{
    reveal_strlit("[]");
    reveal_strlit("[");
    reveal_strlit("]");
    reveal_strlit(",");
    is_ascii_chars_encode_utf8("[]"@);
    is_ascii_chars_encode_utf8("["@);
    is_ascii_chars_encode_utf8("]"@);
    is_ascii_chars_encode_utf8(","@);
    assert(json_bytes(Seq::empty()) =~= utf8("[]"@));
    assert(json_bytes(seq![last]) =~= utf8("["@) + decimal(last as nat) + utf8("]"@));
    if bytes.len() > 0 {
        assert(bytes.push(last).drop_last() =~= bytes);
        assert(json_bytes(bytes).drop_last() =~= seq![0x5bu8] + comma_separated(bytes));
        assert(json_bytes(bytes.push(last)) =~= json_bytes(bytes).drop_last() + utf8(","@)
            + decimal(last as nat) + utf8("]"@));
    }
}

// ---------------------------------------------------------------------------
// Messages.
// ---------------------------------------------------------------------------
/// No two messages have the same encoded form: neither are two kinds of message
/// taken for each other, nor two records.
pub proof fn messages_differ(a: MessageView, b: MessageView)
    requires
        message_json(a) == message_json(b),
    ensures
        a == b,
{
    let prepared = utf8("{\"type\":\"prepared\",\"record\":"@);
    let complete = utf8("{\"type\":\"complete\",\"record\":"@);
    let close = utf8("}"@);
    reveal_strlit("{\"type\":\"request\"}");
    reveal_strlit("{\"type\":\"finalized\"}");
    reveal_strlit("{\"type\":\"prepared\",\"record\":");
    reveal_strlit("{\"type\":\"complete\",\"record\":");
    is_ascii_chars_encode_utf8("{\"type\":\"request\"}"@);
    is_ascii_chars_encode_utf8("{\"type\":\"finalized\"}"@);
    is_ascii_chars_encode_utf8("{\"type\":\"prepared\",\"record\":"@);
    is_ascii_chars_encode_utf8("{\"type\":\"complete\",\"record\":"@);
    let s = message_json(a);
    let t = message_json(b);
    assert(a is Request ==> s[9] == 'r' as u8);
    assert(a is Finalized ==> s[9] == 'f' as u8);
    assert(a is Prepared ==> s[9] == 'p' as u8);
    assert(a is Complete ==> s[9] == 'c' as u8);
    assert(b is Request ==> t[9] == 'r' as u8);
    assert(b is Finalized ==> t[9] == 'f' as u8);
    assert(b is Prepared ==> t[9] == 'p' as u8);
    assert(b is Complete ==> t[9] == 'c' as u8);
    match (a, b) {
        (MessageView::Prepared(x), MessageView::Prepared(y)) => {
            assert(s =~= prepared + (json_bytes(x) + close));
            assert(t =~= prepared + (json_bytes(y) + close));
            same_rest(prepared, json_bytes(x) + close, json_bytes(y) + close);
            lists_differ(x, y, close, close);
        },
        (MessageView::Complete(x), MessageView::Complete(y)) => {
            assert(s =~= complete + (json_bytes(x) + close));
            assert(t =~= complete + (json_bytes(y) + close));
            same_rest(complete, json_bytes(x) + close, json_bytes(y) + close);
            lists_differ(x, y, close, close);
        },
        _ => {},
    }
}

// ---------------------------------------------------------------------------
// Grants.
// ---------------------------------------------------------------------------
/// Lines of capabilities, seen from the front.
proof fn lines_from_the_front(texts: Seq<Seq<char>>)
    requires
        texts.len() > 1,
    ensures
        capability_lines(texts) == utf8("\n    "@) + (json_text(texts[0]) + (utf8(","@)
            + capability_lines(texts.drop_first()))),
    decreases texts.len(),
{
    let rest = texts.drop_first();
    let front = texts.drop_last();
    let indent = utf8("\n    "@);
    let comma = utf8(","@);
    let between = utf8(",\n    "@);
    assert(between =~= comma + indent) by {
        reveal_strlit("\n    ");
        reveal_strlit(",");
        reveal_strlit(",\n    ");
        is_ascii_chars_encode_utf8("\n    "@);
        is_ascii_chars_encode_utf8(","@);
        is_ascii_chars_encode_utf8(",\n    "@);
    }
    assert(rest.last() == texts.last() && front[0] == texts[0]);
    if texts.len() == 2 {
        reveal_with_fuel(capability_lines, 2);
        assert(rest[0] == texts[1]);
        assert(capability_lines(texts) =~= indent + (json_text(texts[0]) + (comma
            + capability_lines(rest))));
    } else {
        lines_from_the_front(front);
        assert(front.drop_first() =~= rest.drop_last());
        assert(capability_lines(texts) =~= indent + (json_text(texts[0]) + (comma
            + capability_lines(rest))));
    }
}

/// What follows the lines of capabilities.
spec fn lines_end() -> Seq<u8> {
    utf8("\n  ]\n}"@)
}

/// What follows the first of the capabilities, up to the end.
spec fn after_first(texts: Seq<Seq<char>>) -> Seq<u8> {
    if texts.len() == 1 {
        lines_end()
    } else {
        utf8(","@) + (capability_lines(texts.drop_first()) + lines_end())
    }
}

/// Lines of capabilities begin with the first one; what follows it begins with a
/// comma exactly if there are more.
proof fn lines_begin(texts: Seq<Seq<char>>)
    requires
        texts.len() > 0,
    ensures
        capability_lines(texts) + lines_end() == utf8("\n    "@) + (json_text(texts[0])
            + after_first(texts)),
        (capability_lines(texts) + lines_end())[0] == 0x0a,
        after_first(texts).len() > 0,
        after_first(texts)[0] == 0x2c <==> texts.len() > 1,
{
    let indent = utf8("\n    "@);
    assert(utf8(","@).len() == 1 && utf8(","@)[0] == 0x2c) by {
        reveal_strlit(",");
        is_ascii_chars_encode_utf8(","@);
    }
    assert(lines_end().len() > 0 && lines_end()[0] == 0x0a) by {
        reveal_strlit("\n  ]\n}");
        is_ascii_chars_encode_utf8("\n  ]\n}"@);
    }
    assert(indent.len() > 0 && indent[0] == 0x0a) by {
        reveal_strlit("\n    ");
        is_ascii_chars_encode_utf8("\n    "@);
    }
    if texts.len() > 1 {
        lines_from_the_front(texts);
        let rest = capability_lines(texts.drop_first());
        assert(after_first(texts)[0] == utf8(","@)[0]);
        assert(capability_lines(texts) + lines_end() =~= indent + (json_text(texts[0]) + (utf8(","@)
            + (rest + lines_end()))));
    } else {
        assert(capability_lines(texts) + lines_end() =~= indent + (json_text(texts[0])
            + lines_end()));
    }
}

/// Lines of capabilities are told from any others.
proof fn lines_differ(a: Seq<Seq<char>>, b: Seq<Seq<char>>)
    requires
        a.len() > 0,
        b.len() > 0,
        capability_lines(a) + lines_end() == capability_lines(b) + lines_end(),
    ensures
        a == b,
    decreases a.len(),
{
    lines_begin(a);
    lines_begin(b);
    same_rest(
        utf8("\n    "@),
        json_text(a[0]) + after_first(a),
        json_text(b[0]) + after_first(b),
    );
    texts_differ(a[0], b[0], after_first(a), after_first(b));
    if a.len() > 1 {
        same_rest(
            utf8(","@),
            capability_lines(a.drop_first()) + lines_end(),
            capability_lines(b.drop_first()) + lines_end(),
        );
        lines_differ(a.drop_first(), b.drop_first());
    } else {
        assert(a.drop_first() =~= b.drop_first());
    }
    assert(a =~= seq![a[0]] + a.drop_first());
    assert(b =~= seq![b[0]] + b.drop_first());
}

/// What follows the opening bracket of a list of capabilities.
spec fn list_rest(texts: Seq<Seq<char>>) -> Seq<u8> {
    if texts.len() == 0 {
        utf8("]\n}"@)
    } else {
        capability_lines(texts) + lines_end()
    }
}

/// The stored form of grants, part by part.
proof fn grants_are_parts(id: Seq<char>, texts: Seq<Seq<char>>)
    ensures
        grants_json(id, texts) == utf8("{\n  \"device_id\": "@) + (json_text(id) + (utf8(
            ",\n  \"capabilities\": ["@,
        ) + list_rest(texts))),
        list_rest(texts).len() > 0,
        list_rest(texts)[0] == 0x0a <==> texts.len() > 0,
{
    assert(grants_json(id, texts) =~= utf8("{\n  \"device_id\": "@) + (json_text(id) + (utf8(
        ",\n  \"capabilities\": ["@,
    ) + list_rest(texts))));
    if texts.len() > 0 {
        lines_begin(texts);
    } else {
        reveal_strlit("]\n}");
        is_ascii_chars_encode_utf8("]\n}"@);
    }
}

/// No two devices and no two lists of capabilities have the same stored form.
pub proof fn stored_grants_differ(
    a_id: Seq<char>,
    a: Seq<Seq<char>>,
    b_id: Seq<char>,
    b: Seq<Seq<char>>,
)
    requires
        grants_json(a_id, a) == grants_json(b_id, b),
    ensures
        a_id == b_id,
        a == b,
{
    let head = utf8("{\n  \"device_id\": "@);
    let middle = utf8(",\n  \"capabilities\": ["@);
    grants_are_parts(a_id, a);
    grants_are_parts(b_id, b);
    let x = list_rest(a);
    let y = list_rest(b);
    same_rest(head, json_text(a_id) + (middle + x), json_text(b_id) + (middle + y));
    texts_differ(a_id, b_id, middle + x, middle + y);
    same_rest(middle, x, y);
    if a.len() > 0 {
        lines_differ(a, b);
    } else {
        assert(a =~= b);
    }
}

} // verus!
