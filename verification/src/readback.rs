//! Stored forms can be read in one way only: no two records have the same one.
use crate::codec::utf8;
use crate::error::SyncError;
use crate::json::{
    comma_separated, decimal, escaped, escaped_char, hex_digit, json_bytes, json_text,
};
use crate::record::{
    json_signature, record_accepted, record_json, record_shape_error, storable, RecordView,
};
use vstd::prelude::*;
use vstd::utf8::*;

verus! {

// ---------------------------------------------------------------------------
// Texts.
// ---------------------------------------------------------------------------
/// What follows equal beginnings of equal sequences is equal.
pub(crate) proof fn same_rest(a: Seq<u8>, x: Seq<u8>, y: Seq<u8>)
    requires
        a + x == a + y,
    ensures
        x == y,
{
    let s = a + x;
    let t = a + y;
    assert(s.len() == a.len() + x.len() && t.len() == a.len() + y.len());
    assert forall|k: int| 0 <= k < x.len() implies x[k] == y[k] by {
        assert(s[a.len() + k] == x[k]);
        assert(t[a.len() + k] == y[k]);
    }
    assert(x =~= y);
}

/// The first character of bytes that begin with its encoding is that character.
proof fn first_scalar_of(c: char, x: Seq<u8>)
    ensures
        utf8(seq![c]).len() > 0,
        decode_first_scalar(utf8(seq![c]) + x) == c as u32,
{
    let u = utf8(seq![c]);
    encode_utf8_first_scalar(seq![c]);
    encode_utf8_valid_utf8(seq![c]);
    assert(seq![c].drop_first() =~= Seq::empty());
    assert(u =~= encode_scalar(c as u32)) by {
        assert(encode_utf8(seq![c]) == encode_scalar(c as u32) + encode_utf8(
            seq![c].drop_first(),
        ));
    }
    assert(forall|k: int| 0 <= k < u.len() ==> (u + x)[k] == u[k]);
    assert(valid_first_scalar(u));
    assert(length_of_first_scalar(u) == u.len());
}

/// Characters are told apart by how they stand in a text.
proof fn characters_differ(c: char, d: char, x: Seq<u8>, y: Seq<u8>)
    requires
        escaped_char(c) + x == escaped_char(d) + y,
    ensures
        c == d,
        x == y,
{
    let b = escaped_char(c) + x;
    escaped_begins(c, x);
    escaped_begins(d, y);
    if b[0] == 0x5c {
        assert(escaped_char(c)[1] == b[1] && escaped_char(d)[1] == b[1]);
        if b[1] == 0x75 {
            assert(escaped_char(c)[4] == b[4] && escaped_char(d)[4] == b[4]);
            assert(escaped_char(c)[5] == b[5] && escaped_char(d)[5] == b[5]);
        }
        assert(c as int == d as int);
    } else {
        first_scalar_of(c, x);
        first_scalar_of(d, y);
        assert(c as u32 == d as u32);
    }
    same_rest(escaped_char(c), x, y);
}

/// A character stands in a text either behind a backslash or for itself; it is
/// never a bare quotation mark.
proof fn escaped_begins(c: char, x: Seq<u8>)
    ensures
        escaped_char(c).len() > 0,
        (escaped_char(c) + x)[0] == escaped_char(c)[0],
        escaped_char(c)[0] != 0x22,
        escaped_char(c)[0] == 0x5c <==> (c as int == 0x22 || c as int == 0x5c || (c as int) < 0x20),
        escaped_char(c)[0] == 0x5c ==> escaped_char(c).len() >= 2,
        escaped_char(c)[0] != 0x5c ==> escaped_char(c) == utf8(seq![c]),
{
    if c as int != 0x22 && c as int != 0x5c && c as int >= 0x20 {
        let u = utf8(seq![c]);
        first_scalar_of(c, Seq::empty());
        assert(u + Seq::<u8>::empty() =~= u);
        encode_utf8_valid_utf8(seq![c]);
        if u[0] == 0x22 || u[0] == 0x5c {
            let b = u[0];
            assert(b & 0x7f == b) by (bit_vector)
                requires
                    b == 0x22 || b == 0x5c,
            ;
            assert(decode_first_scalar(u) == b as u32);
        }
    }
}

/// The characters of a text, seen from the front.
proof fn escaped_from_the_front(text: Seq<char>)
    requires
        text.len() > 0,
    ensures
        escaped(text) == escaped_char(text[0]) + escaped(text.drop_first()),
    decreases text.len(),
{
    let rest = text.drop_first();
    if text.len() == 1 {
        assert(text.drop_last() =~= Seq::empty());
        assert(rest =~= Seq::empty());
        assert(escaped(text) =~= escaped_char(text[0]) + escaped(rest));
    } else {
        let front = text.drop_last();
        escaped_from_the_front(front);
        assert(front.drop_first() =~= rest.drop_last());
        assert(front[0] == text[0] && rest.last() == text.last());
        assert(escaped(text) =~= escaped_char(text[0]) + escaped(rest));
    }
}

/// Texts are told apart up to their closing quotation mark.
proof fn escaped_differ(a: Seq<char>, b: Seq<char>, x: Seq<u8>, y: Seq<u8>)
    requires
        escaped(a) + (seq![0x22u8] + x) == escaped(b) + (seq![0x22u8] + y),
    ensures
        a == b,
        x == y,
    decreases a.len(),
{
    let quote = seq![0x22u8];
    let s = escaped(a) + (quote + x);
    if a.len() == 0 {
        assert(s =~= quote + x);
        assert(s[0] == 0x22);
        if b.len() > 0 {
            escaped_from_the_front(b);
            let rest = escaped(b.drop_first()) + (quote + y);
            assert(s =~= escaped_char(b[0]) + rest);
            escaped_begins(b[0], rest);
        }
        assert(s =~= quote + y);
        same_rest(quote, x, y);
        assert(a =~= b);
    } else {
        escaped_from_the_front(a);
        let a_rest = escaped(a.drop_first()) + (quote + x);
        assert(s =~= escaped_char(a[0]) + a_rest);
        escaped_begins(a[0], a_rest);
        if b.len() == 0 {
            assert(s =~= quote + y);
            assert(s[0] == 0x22);
        }
        escaped_from_the_front(b);
        let b_rest = escaped(b.drop_first()) + (quote + y);
        assert(s =~= escaped_char(b[0]) + b_rest);
        characters_differ(a[0], b[0], a_rest, b_rest);
        escaped_differ(a.drop_first(), b.drop_first(), x, y);
        assert(a =~= seq![a[0]] + a.drop_first());
        assert(b =~= seq![b[0]] + b.drop_first());
    }
}

/// A text is told from any other, whatever follows.
pub(crate) proof fn texts_differ(a: Seq<char>, b: Seq<char>, x: Seq<u8>, y: Seq<u8>)
    requires
        json_text(a) + x == json_text(b) + y,
    ensures
        a == b,
        x == y,
{
    let quote = seq![0x22u8];
    assert(json_text(a) + x =~= quote + (escaped(a) + (quote + x)));
    assert(json_text(b) + y =~= quote + (escaped(b) + (quote + y)));
    same_rest(quote, escaped(a) + (quote + x), escaped(b) + (quote + y));
    escaped_differ(a, b, x, y);
}

// ---------------------------------------------------------------------------
// Numbers and lists.
// ---------------------------------------------------------------------------
/// Whether bytes begin with no digit.
spec fn no_digit(x: Seq<u8>) -> bool {
    x.len() > 0 && !(0x30 <= x[0] <= 0x39)
}

/// A number stands in digits, one at least.
proof fn decimal_is_digits(value: nat)
    ensures
        decimal(value).len() > 0,
        forall|k: int|
            0 <= k < decimal(value).len() ==> 0x30 <= #[trigger] decimal(value)[k] <= 0x39,
    decreases value,
{
    if value >= 10 {
        decimal_is_digits(value / 10);
    }
}

/// Numbers are told apart by their digits.
proof fn digits_differ(a: nat, b: nat)
    requires
        decimal(a) == decimal(b),
    ensures
        a == b,
    decreases a,
{
    decimal_is_digits(a / 10);
    decimal_is_digits(b / 10);
    let s = decimal(a);
    let t = decimal(b);
    if a < 10 && b < 10 {
        assert(s[0] == 0x30 + a && t[0] == 0x30 + b);
    } else if a < 10 {
        assert(s.len() == 1 && t.len() >= 2);
    } else if b < 10 {
        assert(t.len() == 1 && s.len() >= 2);
    } else {
        assert(s.drop_last() =~= decimal(a / 10));
        assert(t.drop_last() =~= decimal(b / 10));
        assert(s.last() == 0x30 + a % 10 && t.last() == 0x30 + b % 10);
        digits_differ(a / 10, b / 10);
    }
}

/// A number is told from any other, where no digit follows.
proof fn numbers_differ(a: nat, b: nat, x: Seq<u8>, y: Seq<u8>)
    requires
        decimal(a) + x == decimal(b) + y,
        no_digit(x),
        no_digit(y),
    ensures
        a == b,
        x == y,
{
    let s = decimal(a) + x;
    decimal_is_digits(a);
    decimal_is_digits(b);
    let t = decimal(b) + y;
    let m = decimal(a).len() as int;
    let n = decimal(b).len() as int;
    assert(s[m] == x[0] && t[n] == y[0]);
    if m < n {
        assert(t[m] == decimal(b)[m]);
    }
    if n < m {
        assert(s[n] == decimal(a)[n]);
    }
    assert(decimal(a) =~= decimal(b)) by {
        assert forall|k: int| 0 <= k < m implies decimal(a)[k] == decimal(b)[k] by {
            assert(s[k] == decimal(a)[k] && t[k] == decimal(b)[k]);
        }
    }
    digits_differ(a, b);
    same_rest(decimal(a), x, y);
}

/// Numbers with commas between them, seen from the front.
proof fn list_from_the_front(bytes: Seq<u8>)
    requires
        bytes.len() > 1,
    ensures
        comma_separated(bytes) == decimal(bytes[0] as nat) + (seq![0x2cu8] + comma_separated(
            bytes.drop_first(),
        )),
    decreases bytes.len(),
{
    let rest = bytes.drop_first();
    let front = bytes.drop_last();
    if bytes.len() == 2 {
        reveal_with_fuel(comma_separated, 2);
        assert(comma_separated(bytes) =~= decimal(bytes[0] as nat) + (seq![0x2cu8]
            + comma_separated(rest)));
    } else {
        list_from_the_front(front);
        assert(front.drop_first() =~= rest.drop_last());
        assert(front[0] == bytes[0] && rest.last() == bytes.last());
        assert(comma_separated(bytes) =~= decimal(bytes[0] as nat) + (seq![0x2cu8]
            + comma_separated(rest)));
    }
}

/// What is written of a list from its first number on: the number, then a comma
/// and the rest, or the closing bracket.
proof fn list_begins(bytes: Seq<u8>, x: Seq<u8>)
    requires
        bytes.len() > 0,
    ensures
        comma_separated(bytes) + (seq![0x5du8] + x) == decimal(bytes[0] as nat) + (
        if bytes.len() == 1 {
            seq![0x5du8] + x
        } else {
            seq![0x2cu8] + (comma_separated(bytes.drop_first()) + (seq![0x5du8] + x))
        }),
{
    if bytes.len() > 1 {
        list_from_the_front(bytes);
        assert(comma_separated(bytes) + (seq![0x5du8] + x) =~= decimal(bytes[0] as nat) + (
        seq![0x2cu8] + (comma_separated(bytes.drop_first()) + (seq![0x5du8] + x))));
    }
}

/// Lists are told apart up to their closing bracket.
proof fn listed_differ(a: Seq<u8>, b: Seq<u8>, x: Seq<u8>, y: Seq<u8>)
    requires
        comma_separated(a) + (seq![0x5du8] + x) == comma_separated(b) + (seq![0x5du8] + y),
    ensures
        a == b,
        x == y,
    decreases a.len(),
{
    let close = seq![0x5du8];
    let comma = seq![0x2cu8];
    let s = comma_separated(a) + (close + x);
    if a.len() == 0 || b.len() == 0 {
        if a.len() == 0 {
            assert(s =~= close + x);
        } else {
            list_begins(a, x);
            decimal_is_digits(a[0] as nat);
            assert(s[0] == decimal(a[0] as nat)[0]);
        }
        if b.len() == 0 {
            assert(s =~= close + y);
        } else {
            list_begins(b, y);
            decimal_is_digits(b[0] as nat);
            assert(s[0] == decimal(b[0] as nat)[0]);
        }
        same_rest(close, x, y);
        assert(a =~= b);
    } else {
        list_begins(a, x);
        list_begins(b, y);
        let a_rest = comma_separated(a.drop_first()) + (close + x);
        let b_rest = comma_separated(b.drop_first()) + (close + y);
        let a_tail = if a.len() == 1 {
            close + x
        } else {
            comma + a_rest
        };
        let b_tail = if b.len() == 1 {
            close + y
        } else {
            comma + b_rest
        };
        numbers_differ(a[0] as nat, b[0] as nat, a_tail, b_tail);
        assert(a_tail[0] == b_tail[0]);
        if a.len() == 1 {
            same_rest(close, x, y);
            assert(a =~= b);
        } else {
            same_rest(comma, a_rest, b_rest);
            listed_differ(a.drop_first(), b.drop_first(), x, y);
            assert(a =~= seq![a[0]] + a.drop_first());
            assert(b =~= seq![b[0]] + b.drop_first());
        }
    }
}

/// A list is told from any other, whatever follows.
pub(crate) proof fn lists_differ(a: Seq<u8>, b: Seq<u8>, x: Seq<u8>, y: Seq<u8>)
    requires
        json_bytes(a) + x == json_bytes(b) + y,
    ensures
        a == b,
        x == y,
{
    let opening = seq![0x5bu8];
    let close = seq![0x5du8];
    assert(json_bytes(a) + x =~= opening + (comma_separated(a) + (close + x)));
    assert(json_bytes(b) + y =~= opening + (comma_separated(b) + (close + y)));
    same_rest(
        opening,
        comma_separated(a) + (close + x),
        comma_separated(b) + (close + y),
    );
    listed_differ(a, b, x, y);
}

/// An optional signature is told from any other, whatever follows.
proof fn signatures_differ(a: Option<Seq<u8>>, b: Option<Seq<u8>>, x: Seq<u8>, y: Seq<u8>)
    requires
        json_signature(a) + x == json_signature(b) + y,
    ensures
        a == b,
        x == y,
{
    let s = json_signature(a) + x;
    let none = utf8("null"@);
    reveal_strlit("null");
    is_ascii_chars_encode_utf8("null"@);
    assert(none.len() == 4 && none[0] == 'n' as u8);
    if a is Some {
        assert(s[0] == 0x5b);
    } else {
        assert(s[0] == none[0]);
    }
    if b is Some {
        assert(s[0] == 0x5b);
    } else {
        assert(s[0] == none[0]);
    }
    if a is Some {
        lists_differ(a->Some_0, b->Some_0, x, y);
    } else {
        same_rest(none, x, y);
    }
}

// ---------------------------------------------------------------------------
// Records.
// ---------------------------------------------------------------------------
/// The stored form of a record from the time of its authorization on.
spec fn last_fields(r: RecordView) -> Seq<u8> {
    let end = utf8("}"@);
    let from_responder_signature = utf8(",\"responder_signature\":"@)
        + (json_signature(r.responder_signature) + end);
    let from_initiator_signature = utf8(",\"initiator_signature\":"@)
        + (json_signature(r.initiator_signature) + from_responder_signature);
    let from_authorized_at = utf8(",\"authorized_at\":"@)
        + (decimal(r.authorized_at as nat) + from_initiator_signature);
    from_authorized_at
}

/// The stored form of a record from the certificate of the responder on.
spec fn late_fields(r: RecordView) -> Seq<u8> {
    let end = last_fields(r);
    let from_user_presence = utf8(",\"user_presence\":"@) + (json_text(r.user_presence) + end);
    let from_authorizing_device_id = utf8(",\"authorizing_device_id\":"@)
        + (json_text(r.authorizing_device_id) + from_user_presence);
    let from_session_binding = utf8(",\"session_binding\":"@)
        + (json_bytes(r.session_binding) + from_authorizing_device_id);
    let from_responder_certificate = utf8(",\"responder_certificate\":"@)
        + (json_bytes(r.responder_certificate) + from_session_binding);
    from_responder_certificate
}

/// The stored form of a record from the DeviceID of the responder on.
spec fn middle_fields(r: RecordView) -> Seq<u8> {
    let end = late_fields(r);
    let from_initiator_certificate = utf8(",\"initiator_certificate\":"@)
        + (json_bytes(r.initiator_certificate) + end);
    let from_responder_public_key = utf8(",\"responder_public_key\":"@)
        + (json_bytes(r.responder_public_key) + from_initiator_certificate);
    let from_initiator_public_key = utf8(",\"initiator_public_key\":"@)
        + (json_bytes(r.initiator_public_key) + from_responder_public_key);
    let from_responder_device_id = utf8(",\"responder_device_id\":"@)
        + (json_text(r.responder_device_id) + from_initiator_public_key);
    from_responder_device_id
}

/// The stored form of a record.
spec fn all_fields(r: RecordView) -> Seq<u8> {
    let end = middle_fields(r);
    let from_initiator_device_id = utf8(",\"initiator_device_id\":"@)
        + (json_text(r.initiator_device_id) + end);
    let from_pair_id = utf8(",\"pair_id\":"@) + (json_text(r.pair_id) + from_initiator_device_id);
    let from_domain = utf8(",\"domain\":"@) + (json_text(r.domain) + from_pair_id);
    let from_protocol_version = utf8("{\"protocol_version\":"@)
        + (decimal(r.protocol_version as nat) + from_domain);
    from_protocol_version
}

/// A name, a value and what follows, put together in either order.
proof fn member_is_followed(before: Seq<u8>, name: Seq<u8>, value: Seq<u8>, after: Seq<u8>)
    ensures
        before + name + value + after == before + (name + (value + after)),
{
    assert(before + name + value + after =~= before + (name + (value + after)));
}

/// The stored form of a record is all its fields, one after the other.
proof fn record_is_fields(r: RecordView)
    ensures
        record_json(r) == all_fields(r),
{
    reveal(record_json);
    let s0 = Seq::<u8>::empty();
    let s1 = s0 + utf8("{\"protocol_version\":"@) + decimal(r.protocol_version as nat);
    let s2 = s1 + utf8(",\"domain\":"@) + json_text(r.domain);
    let s3 = s2 + utf8(",\"pair_id\":"@) + json_text(r.pair_id);
    let s4 = s3 + utf8(",\"initiator_device_id\":"@) + json_text(r.initiator_device_id);
    let s5 = s4 + utf8(",\"responder_device_id\":"@) + json_text(r.responder_device_id);
    let s6 = s5 + utf8(",\"initiator_public_key\":"@) + json_bytes(r.initiator_public_key);
    let s7 = s6 + utf8(",\"responder_public_key\":"@) + json_bytes(r.responder_public_key);
    let s8 = s7 + utf8(",\"initiator_certificate\":"@) + json_bytes(r.initiator_certificate);
    let s9 = s8 + utf8(",\"responder_certificate\":"@) + json_bytes(r.responder_certificate);
    let s10 = s9 + utf8(",\"session_binding\":"@) + json_bytes(r.session_binding);
    let s11 = s10 + utf8(",\"authorizing_device_id\":"@) + json_text(r.authorizing_device_id);
    let s12 = s11 + utf8(",\"user_presence\":"@) + json_text(r.user_presence);
    let s13 = s12 + utf8(",\"authorized_at\":"@) + decimal(r.authorized_at as nat);
    let s14 = s13 + utf8(",\"initiator_signature\":"@) + json_signature(r.initiator_signature);
    let s15 = s14 + utf8(",\"responder_signature\":"@) + json_signature(r.responder_signature);
    assert(record_json(r) == s15 + utf8("}"@));
    let t15 = utf8("}"@);
    let t14 = utf8(",\"responder_signature\":"@) + (json_signature(r.responder_signature) + t15);
    let t13 = utf8(",\"initiator_signature\":"@) + (json_signature(r.initiator_signature) + t14);
    let t12 = utf8(",\"authorized_at\":"@) + (decimal(r.authorized_at as nat) + t13);
    let t11 = utf8(",\"user_presence\":"@) + (json_text(r.user_presence) + t12);
    let t10 = utf8(",\"authorizing_device_id\":"@) + (json_text(r.authorizing_device_id) + t11);
    let t9 = utf8(",\"session_binding\":"@) + (json_bytes(r.session_binding) + t10);
    let t8 = utf8(",\"responder_certificate\":"@) + (json_bytes(r.responder_certificate) + t9);
    let t7 = utf8(",\"initiator_certificate\":"@) + (json_bytes(r.initiator_certificate) + t8);
    let t6 = utf8(",\"responder_public_key\":"@) + (json_bytes(r.responder_public_key) + t7);
    let t5 = utf8(",\"initiator_public_key\":"@) + (json_bytes(r.initiator_public_key) + t6);
    let t4 = utf8(",\"responder_device_id\":"@) + (json_text(r.responder_device_id) + t5);
    let t3 = utf8(",\"initiator_device_id\":"@) + (json_text(r.initiator_device_id) + t4);
    let t2 = utf8(",\"pair_id\":"@) + (json_text(r.pair_id) + t3);
    let t1 = utf8(",\"domain\":"@) + (json_text(r.domain) + t2);
    let t0 = utf8("{\"protocol_version\":"@) + (decimal(r.protocol_version as nat) + t1);
    member_is_followed(
        s14,
        utf8(",\"responder_signature\":"@),
        json_signature(r.responder_signature),
        t15,
    );
    member_is_followed(
        s13,
        utf8(",\"initiator_signature\":"@),
        json_signature(r.initiator_signature),
        t14,
    );
    member_is_followed(s12, utf8(",\"authorized_at\":"@), decimal(r.authorized_at as nat), t13);
    member_is_followed(s11, utf8(",\"user_presence\":"@), json_text(r.user_presence), t12);
    member_is_followed(
        s10,
        utf8(",\"authorizing_device_id\":"@),
        json_text(r.authorizing_device_id),
        t11,
    );
    member_is_followed(s9, utf8(",\"session_binding\":"@), json_bytes(r.session_binding), t10);
    member_is_followed(
        s8,
        utf8(",\"responder_certificate\":"@),
        json_bytes(r.responder_certificate),
        t9,
    );
    member_is_followed(
        s7,
        utf8(",\"initiator_certificate\":"@),
        json_bytes(r.initiator_certificate),
        t8,
    );
    member_is_followed(
        s6,
        utf8(",\"responder_public_key\":"@),
        json_bytes(r.responder_public_key),
        t7,
    );
    member_is_followed(
        s5,
        utf8(",\"initiator_public_key\":"@),
        json_bytes(r.initiator_public_key),
        t6,
    );
    member_is_followed(
        s4,
        utf8(",\"responder_device_id\":"@),
        json_text(r.responder_device_id),
        t5,
    );
    member_is_followed(
        s3,
        utf8(",\"initiator_device_id\":"@),
        json_text(r.initiator_device_id),
        t4,
    );
    member_is_followed(s2, utf8(",\"pair_id\":"@), json_text(r.pair_id), t3);
    member_is_followed(s1, utf8(",\"domain\":"@), json_text(r.domain), t2);
    member_is_followed(s0, utf8("{\"protocol_version\":"@), decimal(r.protocol_version as nat), t1);
    assert(s0 + t0 =~= t0);
}

/// The last fields of a record are told from those of any other.
proof fn last_fields_differ(a: RecordView, b: RecordView)
    requires
        last_fields(a) == last_fields(b),
    ensures
        a.authorized_at == b.authorized_at,
        a.initiator_signature == b.initiator_signature,
        a.responder_signature == b.responder_signature,
{
    let a15 = utf8("}"@);
    let a14 = utf8(",\"responder_signature\":"@) + (json_signature(a.responder_signature) + a15);
    let a13 = utf8(",\"initiator_signature\":"@) + (json_signature(a.initiator_signature) + a14);
    let a12 = utf8(",\"authorized_at\":"@) + (decimal(a.authorized_at as nat) + a13);
    let b15 = utf8("}"@);
    let b14 = utf8(",\"responder_signature\":"@) + (json_signature(b.responder_signature) + b15);
    let b13 = utf8(",\"initiator_signature\":"@) + (json_signature(b.initiator_signature) + b14);
    let b12 = utf8(",\"authorized_at\":"@) + (decimal(b.authorized_at as nat) + b13);
    same_rest(
        utf8(",\"authorized_at\":"@),
        decimal(a.authorized_at as nat) + a13,
        decimal(b.authorized_at as nat) + b13,
    );
    reveal_strlit(",\"initiator_signature\":");
    is_ascii_chars_encode_utf8(",\"initiator_signature\":"@);
    assert(a13[0] == 0x2c && b13[0] == 0x2c);
    numbers_differ(a.authorized_at as nat, b.authorized_at as nat, a13, b13);
    same_rest(
        utf8(",\"initiator_signature\":"@),
        json_signature(a.initiator_signature) + a14,
        json_signature(b.initiator_signature) + b14,
    );
    signatures_differ(a.initiator_signature, b.initiator_signature, a14, b14);
    same_rest(
        utf8(",\"responder_signature\":"@),
        json_signature(a.responder_signature) + a15,
        json_signature(b.responder_signature) + b15,
    );
    signatures_differ(a.responder_signature, b.responder_signature, a15, b15);
}

/// The later fields of a record are told from those of any other.
proof fn late_fields_differ(a: RecordView, b: RecordView)
    requires
        late_fields(a) == late_fields(b),
    ensures
        a.responder_certificate == b.responder_certificate,
        a.session_binding == b.session_binding,
        a.authorizing_device_id == b.authorizing_device_id,
        a.user_presence == b.user_presence,
        last_fields(a) == last_fields(b),
{
    let a12 = last_fields(a);
    let a11 = utf8(",\"user_presence\":"@) + (json_text(a.user_presence) + a12);
    let a10 = utf8(",\"authorizing_device_id\":"@) + (json_text(a.authorizing_device_id) + a11);
    let a9 = utf8(",\"session_binding\":"@) + (json_bytes(a.session_binding) + a10);
    let a8 = utf8(",\"responder_certificate\":"@) + (json_bytes(a.responder_certificate) + a9);
    let b12 = last_fields(b);
    let b11 = utf8(",\"user_presence\":"@) + (json_text(b.user_presence) + b12);
    let b10 = utf8(",\"authorizing_device_id\":"@) + (json_text(b.authorizing_device_id) + b11);
    let b9 = utf8(",\"session_binding\":"@) + (json_bytes(b.session_binding) + b10);
    let b8 = utf8(",\"responder_certificate\":"@) + (json_bytes(b.responder_certificate) + b9);
    same_rest(
        utf8(",\"responder_certificate\":"@),
        json_bytes(a.responder_certificate) + a9,
        json_bytes(b.responder_certificate) + b9,
    );
    lists_differ(a.responder_certificate, b.responder_certificate, a9, b9);
    same_rest(
        utf8(",\"session_binding\":"@),
        json_bytes(a.session_binding) + a10,
        json_bytes(b.session_binding) + b10,
    );
    lists_differ(a.session_binding, b.session_binding, a10, b10);
    same_rest(
        utf8(",\"authorizing_device_id\":"@),
        json_text(a.authorizing_device_id) + a11,
        json_text(b.authorizing_device_id) + b11,
    );
    texts_differ(a.authorizing_device_id, b.authorizing_device_id, a11, b11);
    same_rest(
        utf8(",\"user_presence\":"@),
        json_text(a.user_presence) + a12,
        json_text(b.user_presence) + b12,
    );
    texts_differ(a.user_presence, b.user_presence, a12, b12);
}

/// The middle fields of a record are told from those of any other.
proof fn middle_fields_differ(a: RecordView, b: RecordView)
    requires
        middle_fields(a) == middle_fields(b),
    ensures
        a.responder_device_id == b.responder_device_id,
        a.initiator_public_key == b.initiator_public_key,
        a.responder_public_key == b.responder_public_key,
        a.initiator_certificate == b.initiator_certificate,
        late_fields(a) == late_fields(b),
{
    let a8 = late_fields(a);
    let a7 = utf8(",\"initiator_certificate\":"@) + (json_bytes(a.initiator_certificate) + a8);
    let a6 = utf8(",\"responder_public_key\":"@) + (json_bytes(a.responder_public_key) + a7);
    let a5 = utf8(",\"initiator_public_key\":"@) + (json_bytes(a.initiator_public_key) + a6);
    let a4 = utf8(",\"responder_device_id\":"@) + (json_text(a.responder_device_id) + a5);
    let b8 = late_fields(b);
    let b7 = utf8(",\"initiator_certificate\":"@) + (json_bytes(b.initiator_certificate) + b8);
    let b6 = utf8(",\"responder_public_key\":"@) + (json_bytes(b.responder_public_key) + b7);
    let b5 = utf8(",\"initiator_public_key\":"@) + (json_bytes(b.initiator_public_key) + b6);
    let b4 = utf8(",\"responder_device_id\":"@) + (json_text(b.responder_device_id) + b5);
    same_rest(
        utf8(",\"responder_device_id\":"@),
        json_text(a.responder_device_id) + a5,
        json_text(b.responder_device_id) + b5,
    );
    texts_differ(a.responder_device_id, b.responder_device_id, a5, b5);
    same_rest(
        utf8(",\"initiator_public_key\":"@),
        json_bytes(a.initiator_public_key) + a6,
        json_bytes(b.initiator_public_key) + b6,
    );
    lists_differ(a.initiator_public_key, b.initiator_public_key, a6, b6);
    same_rest(
        utf8(",\"responder_public_key\":"@),
        json_bytes(a.responder_public_key) + a7,
        json_bytes(b.responder_public_key) + b7,
    );
    lists_differ(a.responder_public_key, b.responder_public_key, a7, b7);
    same_rest(
        utf8(",\"initiator_certificate\":"@),
        json_bytes(a.initiator_certificate) + a8,
        json_bytes(b.initiator_certificate) + b8,
    );
    lists_differ(a.initiator_certificate, b.initiator_certificate, a8, b8);
}

/// The fields of a record are told from those of any other.
proof fn all_fields_differ(a: RecordView, b: RecordView)
    requires
        all_fields(a) == all_fields(b),
    ensures
        a.protocol_version == b.protocol_version,
        a.domain == b.domain,
        a.pair_id == b.pair_id,
        a.initiator_device_id == b.initiator_device_id,
        middle_fields(a) == middle_fields(b),
{
    let a4 = middle_fields(a);
    let a3 = utf8(",\"initiator_device_id\":"@) + (json_text(a.initiator_device_id) + a4);
    let a2 = utf8(",\"pair_id\":"@) + (json_text(a.pair_id) + a3);
    let a1 = utf8(",\"domain\":"@) + (json_text(a.domain) + a2);
    let a0 = utf8("{\"protocol_version\":"@) + (decimal(a.protocol_version as nat) + a1);
    let b4 = middle_fields(b);
    let b3 = utf8(",\"initiator_device_id\":"@) + (json_text(b.initiator_device_id) + b4);
    let b2 = utf8(",\"pair_id\":"@) + (json_text(b.pair_id) + b3);
    let b1 = utf8(",\"domain\":"@) + (json_text(b.domain) + b2);
    let b0 = utf8("{\"protocol_version\":"@) + (decimal(b.protocol_version as nat) + b1);
    same_rest(
        utf8("{\"protocol_version\":"@),
        decimal(a.protocol_version as nat) + a1,
        decimal(b.protocol_version as nat) + b1,
    );
    reveal_strlit(",\"domain\":");
    is_ascii_chars_encode_utf8(",\"domain\":"@);
    assert(a1[0] == 0x2c && b1[0] == 0x2c);
    numbers_differ(a.protocol_version as nat, b.protocol_version as nat, a1, b1);
    same_rest(utf8(",\"domain\":"@), json_text(a.domain) + a2, json_text(b.domain) + b2);
    texts_differ(a.domain, b.domain, a2, b2);
    same_rest(utf8(",\"pair_id\":"@), json_text(a.pair_id) + a3, json_text(b.pair_id) + b3);
    texts_differ(a.pair_id, b.pair_id, a3, b3);
    same_rest(
        utf8(",\"initiator_device_id\":"@),
        json_text(a.initiator_device_id) + a4,
        json_text(b.initiator_device_id) + b4,
    );
    texts_differ(a.initiator_device_id, b.initiator_device_id, a4, b4);
}

/// No two records have the same stored form.
pub proof fn stored_forms_differ(a: RecordView, b: RecordView)
    requires
        record_json(a) == record_json(b),
    ensures
        a == b,
{
    record_is_fields(a);
    record_is_fields(b);
    all_fields_differ(a, b);
    middle_fields_differ(a, b);
    late_fields_differ(a, b);
    last_fields_differ(a, b);
}

/// What was written is what is read: where the stored form of a record in order
/// is parsed into a record that has this form, the record is accepted, and is
/// the one that was written.
pub proof fn stored_records_read_back(record: RecordView, parsed: RecordView)
    requires
        storable(record),
        record_shape_error(record) is None,
        record_json(parsed) == record_json(record),
    ensures
        record_accepted(record_json(record), Some(parsed)) == Ok::<RecordView, SyncError>(record),
{
    stored_forms_differ(parsed, record);
}

} // verus!
