//! Bounded, canonical byte encodings shared by every protocol record.
//!
//! Integers are big-endian and of fixed width, variable fields carry a
//! two-byte length, and a [`Cursor`] reads them back without ever reading past
//! the end of its input.
use crate::error::SyncError;
use vstd::prelude::*;
use vstd::slice::slice_subrange;
use vstd::utf8::*;

verus! {

/// The `width` low-order base-256 digits of `value`, most significant first.
pub open spec fn be_bytes(value: nat, width: nat) -> Seq<u8>
    decreases width,
{
    if width == 0 {
        Seq::empty()
    } else {
        be_bytes(value / 256, (width - 1) as nat).push((value % 256) as u8)
    }
}

/// The number whose base-256 digits, most significant first, are `digits`.
pub open spec fn be_value(digits: Seq<u8>) -> nat
    decreases digits.len(),
{
    if digits.len() == 0 {
        0
    } else {
        be_value(digits.drop_last()) * 256 + digits.last() as nat
    }
}

/// `256` to the power `width`.
pub open spec fn be_bound(width: nat) -> nat
    decreases width,
{
    if width == 0 {
        1
    } else {
        256 * be_bound((width - 1) as nat)
    }
}

/// A variable-length field: two length bytes, then the content.
pub open spec fn field(content: Seq<u8>) -> Seq<u8> {
    be_bytes(content.len(), 2) + content
}

/// The UTF-8 bytes of a text.
pub open spec fn utf8(text: Seq<char>) -> Seq<u8> {
    encode_utf8(text)
}

/// Encoding a number in enough digits and reading it back gives the number.
pub proof fn be_value_of_be_bytes(value: nat, width: nat)
    requires
        value < be_bound(width),
    ensures
        be_bytes(value, width).len() == width,
        be_value(be_bytes(value, width)) == value,
    decreases width,
{
    if width > 0 {
        let rest = be_bytes(value / 256, (width - 1) as nat);
        assert(value / 256 < be_bound((width - 1) as nat)) by (nonlinear_arith)
            requires
                value < 256 * be_bound((width - 1) as nat),
        ;
        be_value_of_be_bytes(value / 256, (width - 1) as nat);
        assert(be_bytes(value, width).drop_last() =~= rest);
    }
}

/// Reading digits as a number and encoding it again gives the digits.
pub proof fn be_bytes_of_be_value(digits: Seq<u8>)
    ensures
        be_value(digits) < be_bound(digits.len()),
        be_bytes(be_value(digits), digits.len()) == digits,
    decreases digits.len(),
{
    if digits.len() > 0 {
        let rest = digits.drop_last();
        be_bytes_of_be_value(rest);
        let v = be_value(digits);
        assert(v / 256 == be_value(rest));
        assert(v % 256 == digits.last());
        assert(be_bytes(v, digits.len()) =~= digits);
    } else {
        assert(digits =~= Seq::empty());
    }
}

/// The length of an encoded number is its width.
pub proof fn be_bytes_len(value: nat, width: nat)
    ensures
        be_bytes(value, width).len() == width,
    decreases width,
{
    if width > 0 {
        be_bytes_len(value / 256, (width - 1) as nat);
    }
}

/// Two texts with the same UTF-8 bytes are the same text.
pub proof fn utf8_injective(a: Seq<char>, b: Seq<char>)
    requires
        utf8(a) == utf8(b),
    ensures
        a == b,
{
    encode_utf8_decode_utf8(a);
    encode_utf8_decode_utf8(b);
}

/// What a field read at `position` gives: the content and the position after
/// it. An empty field, and one longer than `max`, are refused.
pub open spec fn read_field(bytes: Seq<u8>, position: int, max: int) -> Result<
    (Seq<u8>, int),
    SyncError,
> {
    if bytes.len() - position < 2 {
        Err(SyncError::Truncated)
    } else {
        let length = be_value(bytes.subrange(position, position + 2)) as int;
        if length == 0 || length > max {
            Err(SyncError::FieldExceedsLimit)
        } else if bytes.len() - (position + 2) < length {
            Err(SyncError::Truncated)
        } else {
            Ok(
                (
                    bytes.subrange(position + 2, position + 2 + length),
                    position + 2 + length,
                ),
            )
        }
    }
}

/// What a text field read at `position` gives.
pub open spec fn read_text(bytes: Seq<u8>, position: int, max: int) -> Result<
    (Seq<char>, int),
    SyncError,
> {
    match read_field(bytes, position, max) {
        Err(error) => Err(error),
        Ok((content, next)) => if valid_utf8(content) {
            Ok((decode_utf8(content), next))
        } else {
            Err(SyncError::FieldNotUtf8)
        },
    }
}

/// Reading a field where one was written gives its content back.
pub proof fn read_field_of_field(bytes: Seq<u8>, position: int, content: Seq<u8>, max: int)
    requires
        0 <= position,
        0 < content.len() <= max,
        content.len() < 65536,
        position + 2 + content.len() <= bytes.len(),
        bytes.subrange(position, position + 2 + content.len()) == field(content),
    ensures
        read_field(bytes, position, max) == Ok::<(Seq<u8>, int), SyncError>(
            (content, position + 2 + content.len()),
        ),
{
    let whole = bytes.subrange(position, position + 2 + content.len());
    assert(be_bound(2) == 65536) by {
        reveal_with_fuel(be_bound, 3);
    }
    be_value_of_be_bytes(content.len(), 2);
    assert(bytes.subrange(position, position + 2) =~= whole.subrange(0, 2));
    assert(whole.subrange(0, 2) =~= be_bytes(content.len(), 2));
    assert(bytes.subrange(position + 2, position + 2 + content.len()) =~= whole.subrange(
        2,
        2 + content.len() as int,
    ));
    assert(whole.subrange(2, 2 + content.len() as int) =~= content);
}

/// A field that was read is written back as the bytes it was read from.
pub proof fn field_of_read_field(bytes: Seq<u8>, position: int, max: int)
    requires
        0 <= position,
        read_field(bytes, position, max) is Ok,
    ensures
        ({
            let (content, next) = read_field(bytes, position, max)->Ok_0;
            &&& position + 2 < next <= bytes.len()
            &&& next == position + 2 + content.len()
            &&& 0 < content.len() <= max
            &&& content.len() < 65536
            &&& bytes.subrange(position, next) == field(content)
        }),
{
    let (content, next) = read_field(bytes, position, max)->Ok_0;
    let prefix = bytes.subrange(position, position + 2);
    be_bytes_of_be_value(prefix);
    assert(be_bound(2) == 65536) by {
        reveal_with_fuel(be_bound, 3);
    }
    assert(bytes.subrange(position, next) =~= prefix + content);
}

/// Two concatenations whose second parts have the same length are equal only if
/// their parts are.
pub proof fn split_tail(a: Seq<u8>, x: Seq<u8>, b: Seq<u8>, y: Seq<u8>)
    requires
        a + x == b + y,
        x.len() == y.len(),
    ensures
        a == b,
        x == y,
{
    assert((a + x).len() == (b + y).len());
    assert((a + x).subrange(0, a.len() as int) =~= a);
    assert((b + y).subrange(0, b.len() as int) =~= b);
    assert((a + x).subrange(a.len() as int, (a + x).len() as int) =~= x);
    assert((b + y).subrange(b.len() as int, (b + y).len() as int) =~= y);
}

/// Two concatenations whose first parts have the same length are equal only if
/// their parts are.
pub proof fn split_front(x: Seq<u8>, a: Seq<u8>, y: Seq<u8>, b: Seq<u8>)
    requires
        x + a == y + b,
        x.len() == y.len(),
    ensures
        x == y,
        a == b,
{
    assert((x + a).len() == x.len() + a.len() && (y + b).len() == y.len() + b.len());
    split_tail(x, a, y, b);
}

/// Concatenation is associative.
pub proof fn regroup(x: Seq<u8>, y: Seq<u8>, z: Seq<u8>)
    ensures
        (x + y) + z == x + (y + z),
{
    assert((x + y) + z =~= x + (y + z));
}

/// Two fields of the same bytes hold the same content.
pub proof fn split_field(x: Seq<u8>, rest_x: Seq<u8>, y: Seq<u8>, rest_y: Seq<u8>)
    requires
        field(x) + rest_x == field(y) + rest_y,
        0 < x.len() < 65536,
        0 < y.len() < 65536,
    ensures
        x == y,
        rest_x == rest_y,
{
    let b = field(x) + rest_x;
    be_bytes_len(x.len(), 2);
    be_bytes_len(y.len(), 2);
    assert(b.subrange(0, 2 + x.len() as int) =~= field(x));
    assert(b.subrange(0, 2 + y.len() as int) =~= field(y));
    read_field_of_field(b, 0, x, 65535);
    read_field_of_field(b, 0, y, 65535);
    assert(b.subrange(2 + x.len() as int, b.len() as int) =~= rest_x);
    assert(b.subrange(2 + y.len() as int, b.len() as int) =~= rest_y);
}

/// Appends `bytes` to `out`.
pub fn append(out: &mut Vec<u8>, bytes: &[u8])
    ensures
        final(out)@ == old(out)@ + bytes@,
{
    out.extend_from_slice(bytes);
    proof {
        assert(out@ =~= old(out)@ + bytes@);
    }
}

/// Appends the two-byte encoding of `value`.
pub fn put_u16(out: &mut Vec<u8>, value: u16)
    ensures
        final(out)@ == old(out)@ + be_bytes(value as nat, 2),
{
    out.push((value / 256) as u8);
    out.push((value % 256) as u8);
    proof {
        reveal_with_fuel(be_bytes, 3);
        assert(out@ =~= old(out)@ + be_bytes(value as nat, 2));
    }
}

/// Appends the eight-byte encoding of `value`.
pub fn put_u64(out: &mut Vec<u8>, value: u64)
    ensures
        final(out)@ == old(out)@ + be_bytes(value as nat, 8),
{
    let v1: u64 = value / 256;
    let v2: u64 = v1 / 256;
    let v3: u64 = v2 / 256;
    let v4: u64 = v3 / 256;
    let v5: u64 = v4 / 256;
    let v6: u64 = v5 / 256;
    let v7: u64 = v6 / 256;
    out.push(v7 as u8);
    out.push((v6 % 256) as u8);
    out.push((v5 % 256) as u8);
    out.push((v4 % 256) as u8);
    out.push((v3 % 256) as u8);
    out.push((v2 % 256) as u8);
    out.push((v1 % 256) as u8);
    out.push((value % 256) as u8);
    proof {
        assert(v7 < 256);
        assert(be_bytes(v7 as nat, 1) == be_bytes((v7 / 256) as nat, 0).push(v7 as u8));
        assert(be_bytes(v6 as nat, 2) == be_bytes(v7 as nat, 1).push((v6 % 256) as u8));
        assert(be_bytes(v5 as nat, 3) == be_bytes(v6 as nat, 2).push((v5 % 256) as u8));
        assert(be_bytes(v4 as nat, 4) == be_bytes(v5 as nat, 3).push((v4 % 256) as u8));
        assert(be_bytes(v3 as nat, 5) == be_bytes(v4 as nat, 4).push((v3 % 256) as u8));
        assert(be_bytes(v2 as nat, 6) == be_bytes(v3 as nat, 5).push((v2 % 256) as u8));
        assert(be_bytes(v1 as nat, 7) == be_bytes(v2 as nat, 6).push((v1 % 256) as u8));
        assert(be_bytes(value as nat, 8) == be_bytes(v1 as nat, 7).push((value % 256) as u8));
        assert(out@ =~= old(out)@ + be_bytes(value as nat, 8));
    }
}

/// Appends `value` as a bounded field.
pub fn put_bytes(out: &mut Vec<u8>, value: &[u8], max: usize) -> (result: Result<(), SyncError>)
    ensures
        result == (if 0 < value@.len() <= max && value@.len() < 65536 {
            Ok::<(), SyncError>(())
        } else {
            Err(SyncError::FieldLength)
        }),
        final(out)@ == (if result is Ok {
            old(out)@ + field(value@)
        } else {
            old(out)@
        }),
{
    if value.len() == 0 || value.len() > max || value.len() > 65535 {
        return Err(SyncError::FieldLength);
    }
    put_u16(out, value.len() as u16);
    append(out, value);
    proof {
        assert(out@ =~= old(out)@ + field(value@));
    }
    Ok(())
}

/// Appends the UTF-8 bytes of `value` as a bounded field.
pub fn put_string(out: &mut Vec<u8>, value: &str, max: usize) -> (result: Result<(), SyncError>)
    ensures
        result == (if 0 < utf8(value@).len() <= max && utf8(value@).len() < 65536 {
            Ok::<(), SyncError>(())
        } else {
            Err(SyncError::FieldLength)
        }),
        final(out)@ == (if result is Ok {
            old(out)@ + field(utf8(value@))
        } else {
            old(out)@
        }),
{
    put_bytes(out, value.as_bytes(), max)
}

/// Reads encoded fields from a byte slice, in order.
pub struct Cursor<'a> {
    pub bytes: &'a [u8],
    pub position: usize,
}

impl<'a> Cursor<'a> {
    /// The position lies within the input.
    pub open spec fn wf(&self) -> bool {
        self.position <= self.bytes@.len()
    }

    pub fn new(bytes: &'a [u8]) -> (result: Self)
        ensures
            result.wf(),
            result.bytes == bytes,
            result.position == 0,
    {
        Cursor { bytes, position: 0 }
    }

    /// The next `length` bytes.
    pub fn take(&mut self, length: usize) -> (result: Result<&'a [u8], SyncError>)
        requires
            old(self).wf(),
        ensures
            final(self).wf(),
            final(self).bytes == old(self).bytes,
            match result {
                Ok(value) => {
                    &&& old(self).position + length <= old(self).bytes@.len()
                    &&& final(self).position == old(self).position + length
                    &&& value@ == old(self).bytes@.subrange(
                        old(self).position as int,
                        old(self).position + length,
                    )
                },
                Err(error) => {
                    &&& error == SyncError::Truncated
                    &&& old(self).position + length > old(self).bytes@.len()
                    &&& final(self).position == old(self).position
                },
            },
    {
        if length > self.bytes.len() - self.position {
            return Err(SyncError::Truncated);
        }
        let end: usize = self.position + length;
        let value = slice_subrange(self.bytes, self.position, end);
        self.position = end;
        Ok(value)
    }

    /// The next byte.
    pub fn u8(&mut self) -> (result: Result<u8, SyncError>)
        requires
            old(self).wf(),
        ensures
            final(self).wf(),
            final(self).bytes == old(self).bytes,
            match result {
                Ok(value) => {
                    &&& old(self).position + 1 <= old(self).bytes@.len()
                    &&& final(self).position == old(self).position + 1
                    &&& value == old(self).bytes@[old(self).position as int]
                },
                Err(error) => {
                    &&& error == SyncError::Truncated
                    &&& old(self).position == old(self).bytes@.len()
                    &&& final(self).position == old(self).position
                },
            },
    {
        let taken = self.take(1)?;
        Ok(taken[0])
    }

    /// The next two bytes, as a number.
    pub fn u16(&mut self) -> (result: Result<u16, SyncError>)
        requires
            old(self).wf(),
        ensures
            final(self).wf(),
            final(self).bytes == old(self).bytes,
            match result {
                Ok(value) => {
                    &&& old(self).position + 2 <= old(self).bytes@.len()
                    &&& final(self).position == old(self).position + 2
                    &&& value as nat == be_value(
                        old(self).bytes@.subrange(
                            old(self).position as int,
                            old(self).position + 2,
                        ),
                    )
                },
                Err(error) => {
                    &&& error == SyncError::Truncated
                    &&& old(self).position + 2 > old(self).bytes@.len()
                    &&& final(self).position == old(self).position
                },
            },
    {
        let taken = self.take(2)?;
        let value: u16 = taken[0] as u16 * 256 + taken[1] as u16;
        proof {
            reveal_with_fuel(be_value, 3);
        }
        Ok(value)
    }

    /// The next eight bytes, as a number.
    pub fn u64(&mut self) -> (result: Result<u64, SyncError>)
        requires
            old(self).wf(),
        ensures
            final(self).wf(),
            final(self).bytes == old(self).bytes,
            match result {
                Ok(value) => {
                    &&& old(self).position + 8 <= old(self).bytes@.len()
                    &&& final(self).position == old(self).position + 8
                    &&& value as nat == be_value(
                        old(self).bytes@.subrange(
                            old(self).position as int,
                            old(self).position + 8,
                        ),
                    )
                },
                Err(error) => {
                    &&& error == SyncError::Truncated
                    &&& old(self).position + 8 > old(self).bytes@.len()
                    &&& final(self).position == old(self).position
                },
            },
    {
        let taken = self.take(8)?;
        let mut value: u64 = 0;
        let mut i: usize = 0;
        assert(taken@.subrange(0, 0) =~= Seq::empty());
        while i < 8
            invariant
                i <= 8,
                taken@.len() == 8,
                value as nat == be_value(taken@.subrange(0, i as int)),
            decreases 8 - i,
        {
            proof {
                let head = taken@.subrange(0, i as int);
                be_bytes_of_be_value(head);
                assert(taken@.subrange(0, i + 1).drop_last() =~= head);
                be_bytes_of_be_value(taken@.subrange(0, i + 1));
                assert(be_bound((i + 1) as nat) <= 0x1_0000_0000_0000_0000) by {
                    reveal_with_fuel(be_bound, 9);
                }
            }
            value = value * 256 + taken[i] as u64;
            i = i + 1;
        }
        assert(taken@.subrange(0, 8) =~= taken@);
        Ok(value)
    }

    /// The content of the next bounded field.
    pub fn bytes(&mut self, max: usize) -> (result: Result<&'a [u8], SyncError>)
        requires
            old(self).wf(),
        ensures
            final(self).wf(),
            final(self).bytes == old(self).bytes,
            match result {
                Ok(value) => read_field(
                    old(self).bytes@,
                    old(self).position as int,
                    max as int,
                ) == Ok::<(Seq<u8>, int), SyncError>((value@, final(self).position as int)),
                Err(error) => read_field(
                    old(self).bytes@,
                    old(self).position as int,
                    max as int,
                ) == Err::<(Seq<u8>, int), SyncError>(error),
            },
    {
        let length: u16 = self.u16()?;
        if length == 0 || length as usize > max {
            return Err(SyncError::FieldExceedsLimit);
        }
        self.take(length as usize)
    }

    /// The content of the next bounded field, as a text.
    pub fn string(&mut self, max: usize) -> (result: Result<String, SyncError>)
        requires
            old(self).wf(),
        ensures
            final(self).wf(),
            final(self).bytes == old(self).bytes,
            match result {
                Ok(value) => read_text(
                    old(self).bytes@,
                    old(self).position as int,
                    max as int,
                ) == Ok::<(Seq<char>, int), SyncError>((value@, final(self).position as int)),
                Err(error) => read_text(
                    old(self).bytes@,
                    old(self).position as int,
                    max as int,
                ) == Err::<(Seq<char>, int), SyncError>(error),
            },
    {
        let content = self.bytes(max)?;
        match text_from_utf8(content) {
            Some(text) => Ok(text),
            None => Err(SyncError::FieldNotUtf8),
        }
    }

    /// How many bytes are left.
    pub fn remaining(&self) -> (result: usize)
        requires
            self.wf(),
        ensures
            result == self.bytes@.len() - self.position,
    {
        self.bytes.len() - self.position
    }

    /// Refuses input that was not read to its end.
    pub fn finish(&self) -> (result: Result<(), SyncError>)
        requires
            self.wf(),
        ensures
            result == (if self.position == self.bytes@.len() {
                Ok::<(), SyncError>(())
            } else {
                Err(SyncError::TrailingBytes)
            }),
    {
        if self.position != self.bytes.len() {
            return Err(SyncError::TrailingBytes);
        }
        Ok(())
    }
}

/// `String::from_utf8`: the text whose UTF-8 encoding is `bytes`, and nothing
/// exactly when `bytes` is not valid UTF-8.
#[verifier::external_body]
pub(crate) fn text_from_utf8(bytes: &[u8]) -> (result: Option<String>)
    ensures
        result is Some <==> valid_utf8(bytes@),
        result matches Some(text) ==> text@ == decode_utf8(bytes@),
{
    String::from_utf8(bytes.to_vec()).ok()
}

} // verus!
