//! What fits where, which answers count, and what a key file gives.
use crate::certified::trimming_takes_white_space;
use crate::codec::{be_value, utf8};
use crate::error::SyncError;
use crate::exchange::{aead_sound, peer_reads_what_was_written};
use crate::frames::{
    frame_canonical, frame_encoded, frame_parsed, frame_round_trip, plain_frame_parsed,
    start_parsed, FrameView, StartView,
};
use crate::identity::{identity_loaded, StoredKeyView};
use crate::pairing::SessionView;
use crate::prompt::{consents, decision, RanView};
use crate::runtime_v3::{
    app_decoded, app_encoded, joined, message_json, runtime_magic_lengths, wire_bytes,
    wire_length_ok, wire_round_trip, MessageView,
};
use crate::text::{hex, hex_is_lower_hex, is_id, is_white_space, trimmed, unhex};
use vstd::prelude::*;
use vstd::utf8::*;

verus! {

// ---------------------------------------------------------------------------
// Frames.
// ---------------------------------------------------------------------------
/// Content of one to 65536 bytes goes over the wire, after four bytes that give
/// its length; nothing else does.
pub proof fn wire_frames_carry_content(content: Seq<u8>)
    ensures
        wire_length_ok(content.len() as int) <==> 1 <= content.len() <= 65536,
        1 <= content.len() <= 65536 ==> {
            let frame = wire_bytes(content);
            &&& frame.len() == 4 + content.len()
            &&& frame[0] * 16777216 + frame[1] * 65536 + frame[2] * 256 + frame[3] == content.len()
            &&& frame.subrange(4, frame.len() as int) == content
        },
{
    if 1 <= content.len() <= 65536 {
        wire_round_trip(content);
        let frame = wire_bytes(content);
        let head = frame.subrange(0, 4);
        reveal_with_fuel(be_value, 5);
        assert(head.drop_last().drop_last().drop_last().drop_last() =~= Seq::<u8>::empty());
        assert(head.drop_last().drop_last().drop_last().last() == frame[0]);
        assert(head.drop_last().drop_last().last() == frame[1]);
        assert(head.drop_last().last() == frame[2]);
        assert(head.last() == frame[3]);
    }
}

/// A message whose encoded form, with the twenty-two bytes before it, is within
/// 49152 bytes is sent, and that form is read; a longer one is refused. Of what
/// is received, exactly what is within 49152 bytes and begins with those
/// twenty-two is read, and all the rest of it.
pub proof fn payloads_carry_messages(message: MessageView, payload: Seq<u8>, rest: Seq<u8>)
    ensures
        app_encoded(message) is Ok <==> message_json(message).len() <= 49130,
        app_encoded(message) matches Ok(sent) ==> sent == utf8("OMARCHY-PAIR-RECORD-V3"@)
            + message_json(message),
        app_decoded(payload) == Ok::<Seq<u8>, SyncError>(rest) <==> payload.len() <= 49152
            && payload == utf8("OMARCHY-PAIR-RECORD-V3"@) + rest,
{
    runtime_magic_lengths();
    let magic = utf8("OMARCHY-PAIR-RECORD-V3"@);
    if payload == magic + rest {
        assert(payload.subrange(0, 22) =~= magic);
        assert(payload.subrange(22, payload.len() as int) =~= rest);
    }
    if app_decoded(payload) == Ok::<Seq<u8>, SyncError>(rest) {
        assert(payload =~= magic + rest);
    }
}

/// A frame with a payload of one byte or more, up to what a frame and two bytes
/// of length can hold, in one of the two roles, is what it is parsed as; and
/// nothing that is longer than allowed, or in another role, is parsed.
pub proof fn frames_carry_payloads(f: FrameView, max: int, bytes: Seq<u8>)
    requires
        max <= 65535,
    ensures
        frame_encoded(f, max) is Ok <==> 21 + f.payload.len() <= max,
        1 <= f.payload.len() && 21 + f.payload.len() <= max && (f.role == 1 || f.role == 2)
            ==> frame_parsed(frame_encoded(f, max)->Ok_0, max) == Ok::<FrameView, SyncError>(f),
        frame_parsed(bytes, max) matches Ok(g) ==> {
            &&& bytes.len() <= max
            &&& g.role == 1 || g.role == 2
            &&& 1 <= g.payload.len()
            &&& frame_encoded(g, max) == Ok::<Seq<u8>, SyncError>(bytes)
        },
{
    if 1 <= f.payload.len() && 21 + f.payload.len() <= max && (f.role == 1 || f.role == 2) {
        frame_round_trip(f, max);
    }
    if frame_parsed(bytes, max) is Ok {
        frame_canonical(bytes, max);
    }
}

/// A frame without a sequence number is exactly a frame whose sequence number is
/// zero. The frame that starts a handshake is exactly such a frame from the
/// initiator, of the first kind, that holds the mode, a PairID and the message.
pub proof fn plain_frames_and_starts(bytes: Seq<u8>, max: int, f: FrameView, s: StartView)
    requires
        54 <= max <= 65535,
    ensures
        plain_frame_parsed(bytes, max) == Ok::<FrameView, SyncError>(f) <==> frame_parsed(
            bytes,
            max,
        ) == Ok::<FrameView, SyncError>(f) && f.sequence == 0,
        start_parsed(bytes, max) == Ok::<StartView, SyncError>(s) <==> {
            &&& is_id(s.pair_id)
            &&& frame_parsed(bytes, max) == Ok::<FrameView, SyncError>(
                FrameView {
                    kind: 1,
                    role: 1,
                    sequence: 0,
                    payload: seq![s.mode] + utf8(s.pair_id) + s.message,
                },
            )
        },
{
    let payload = seq![s.mode] + utf8(s.pair_id) + s.message;
    if is_id(s.pair_id) {
        assert(payload.subrange(1, 33) =~= utf8(s.pair_id));
        assert(payload.subrange(33, payload.len() as int) =~= s.message);
        encode_utf8_valid_utf8(s.pair_id);
        encode_utf8_decode_utf8(s.pair_id);
    }
    if start_parsed(bytes, max) == Ok::<StartView, SyncError>(s) {
        let g = frame_parsed(bytes, max)->Ok_0;
        decode_utf8_encode_utf8(g.payload.subrange(1, 33));
        assert(g.payload =~= payload);
    }
}

/// A session sends any content of up to 49152 bytes, and its peer reads it; more
/// is refused. A frame that is refused leaves the session as it was, so that the
/// next one in order is read as if nothing had come between.
pub proof fn sessions_carry_content(
    a: SessionView,
    b: SessionView,
    content: Seq<u8>,
    stray: Seq<u8>,
)
    requires
        aead_sound(),
        a.local_role == 1 || a.local_role == 2,
        b.local_role != a.local_role,
        b.transport.receive_key == a.transport.send_key,
        b.transport.receive_nonce == a.transport.send_nonce,
        a.transport.send_nonce < u64::MAX,
    ensures
        ({
            let (frame, sent) = a.encrypted(content);
            let (unread, kept) = b.decrypted(stray);
            &&& frame is Ok <==> content.len() <= 49152
            &&& frame is Err ==> sent == a
            &&& unread is Err ==> kept == b
            &&& frame is Ok && unread is Err ==> kept.decrypted(frame->Ok_0).0 == Ok::<
                Seq<u8>,
                SyncError,
            >(content)
        }),
{
    if content.len() <= 49152 {
        peer_reads_what_was_written(a, b, content);
    }
}

// ---------------------------------------------------------------------------
// Paths.
// ---------------------------------------------------------------------------
/// A path below a directory begins with the directory and ends with the relative
/// path; a separator at the end of the directory makes no difference, and below
/// nothing the path is the relative one.
pub proof fn paths_are_joined_once(directory: Seq<u8>, relative: Seq<u8>)
    ensures
        joined(Seq::empty(), relative) == relative,
        directory.len() > 0 && directory.last() != 0x2f ==> {
            let path = joined(directory, relative);
            &&& joined(directory.push(0x2f), relative) == path
            &&& path.len() == directory.len() + 1 + relative.len()
            &&& path.take(directory.len() as int) == directory
            &&& path[directory.len() as int] == 0x2f
            &&& path.skip(directory.len() as int + 1) == relative
        },
{
    assert(joined(Seq::empty(), relative) =~= relative);
    if directory.len() > 0 && directory.last() != 0x2f {
        let path = joined(directory, relative);
        assert(joined(directory.push(0x2f), relative) =~= path);
        assert(path.take(directory.len() as int) =~= directory);
        assert(path.skip(directory.len() as int + 1) =~= relative);
    }
}

// ---------------------------------------------------------------------------
// Answers.
// ---------------------------------------------------------------------------
/// Whether a text is the word `pair`, its letters in either case.
pub open spec fn says_pair(word: Seq<char>) -> bool {
    &&& word.len() == 4
    &&& word[0] == 'p' || word[0] == 'P'
    &&& word[1] == 'a' || word[1] == 'A'
    &&& word[2] == 'i' || word[2] == 'I'
    &&& word[3] == 'r' || word[3] == 'R'
}

/// An answer means consent where it is the word `pair`, in any case and with any
/// white space around it.
pub proof fn pair_is_consent(before: Seq<char>, word: Seq<char>, after: Seq<char>)
    requires
        forall|k: int| 0 <= k < before.len() ==> is_white_space(#[trigger] before[k]),
        forall|k: int| 0 <= k < after.len() ==> is_white_space(#[trigger] after[k]),
        says_pair(word),
    ensures
        consents(utf8(before + word + after)),
{
    let text = before + word + after;
    reveal_strlit("pair");
    encode_utf8_valid_utf8(text);
    encode_utf8_decode_utf8(text);
    trimming_takes_white_space(before, word, after);
}

/// An answer that means consent is text with the word `pair` in it, in any case,
/// and nothing else but white space around it.
pub proof fn consent_is_pair(output: Seq<u8>)
    requires
        consents(output),
    ensures
        valid_utf8(output),
        says_pair(trimmed(decode_utf8(output))),
{
    reveal_strlit("pair");
}

/// What the three programs decide. Consent, in the notification or in the dialog
/// where there was no notification, and the policy's approval give the policy's
/// marker; without consent nothing is selected, whatever the policy says; with
/// it, what the policy does not approve is denied, and where it cannot be asked
/// there is no authorization.
pub proof fn programs_decide(notification: RanView, dialog: RanView, policy: RanView)
    ensures
        ({
            let consent = match notification {
                RanView::Succeeded(output) => consents(output),
                _ => dialog is Succeeded,
            };
            let decided = decision(notification, dialog, policy);
            &&& !consent ==> decided == Err::<Seq<char>, SyncError>(
                SyncError::AuthorizationNotSelected,
            )
            &&& consent && policy is Succeeded ==> decided == Ok::<Seq<char>, SyncError>(
                "pkcheck-approved"@,
            )
            &&& consent && policy is Failed ==> decided == Err::<Seq<char>, SyncError>(
                SyncError::AuthorizationDenied,
            )
            &&& consent && policy is NotStarted ==> decided == Err::<Seq<char>, SyncError>(
                SyncError::AuthorizationUnavailable,
            )
        }),
{
}

// ---------------------------------------------------------------------------
// Keys.
// ---------------------------------------------------------------------------
/// A stored key of thirty-two bytes is the identity's, whatever fresh key is on
/// offer; a fresh one is taken only where none is stored; and what is stored but
/// is no key, or no file, is reported and never replaced.
pub proof fn stored_keys_are_kept(stored: StoredKeyView, fresh: Seq<u8>)
    ensures
        match stored {
            StoredKeyView::Missing => identity_loaded(stored, fresh) == Ok::<Seq<u8>, SyncError>(
                fresh,
            ),
            StoredKeyView::Bytes(bytes) => if bytes.len() == 32 {
                identity_loaded(stored, fresh) == Ok::<Seq<u8>, SyncError>(bytes)
            } else {
                identity_loaded(stored, fresh) is Err
            },
            StoredKeyView::NotRegular => identity_loaded(stored, fresh) is Err,
        },
{
}

/// Bytes are what their hexadecimal digits stand for.
pub proof fn digits_stand_for_bytes(bytes: Seq<u8>)
    ensures
        unhex(utf8(hex(bytes))) == bytes,
{
    hex_is_lower_hex(bytes);
    let digits = utf8(hex(bytes));
    assert forall|k: int| 0 <= k < bytes.len() implies #[trigger] unhex(digits)[k] == bytes[k] by {
        assert((2 * k) / 2 == k && (2 * k + 1) / 2 == k && (2 * k + 1) % 2 == 1 && (2 * k) % 2
            == 0);
        assert(digits[2 * k] == hex(bytes)[2 * k] as u8);
        assert(digits[2 * k + 1] == hex(bytes)[2 * k + 1] as u8);
    }
    assert(unhex(digits) =~= bytes);
}

} // verus!
