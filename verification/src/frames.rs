//! Pairing frames: a magic, the protocol version, kind, sender role, sequence
//! number and one bounded payload.
use crate::codec::{
    append, be_bytes_len, field, field_of_read_field, put_u16, read_field, read_field_of_field,
    text_from_utf8, utf8, Cursor,
};
use crate::error::{outcome, SyncError};
use crate::protocol_v3::PROTOCOL_VERSION;
use crate::text::{bytes_eq, check_id, is_id};
use vstd::prelude::*;
use vstd::slice::slice_subrange;
use vstd::utf8::*;

verus! {

pub const FRAME_MAGIC: &'static str = "OMARCHY-PAIR-V3";

pub const ROLE_INITIATOR: u8 = 1;

pub const ROLE_RESPONDER: u8 = 2;

pub const MODE_FIRST_CONTACT: u8 = 1;

pub const MODE_RECONNECT: u8 = 2;

pub const KIND_HANDSHAKE: u8 = 1;

pub const KIND_AUTH: u8 = 2;

pub const KIND_TRANSPORT: u8 = 3;

pub const MAX_HANDSHAKE_FRAME: usize = 2048;

pub const MAX_AUTH_FRAME: usize = 4096;

pub const MAX_AUTH_PLAINTEXT: usize = 2048;

pub const MAX_TRANSPORT_PLAINTEXT: usize = 49152;

/// The longest plaintext, sixteen bytes of authentication tag and the
/// twenty-one bytes of a frame's head.
pub const MAX_TRANSPORT_FRAME: usize = 49189;

/// What a frame says.
#[verifier::ext_equal]
pub struct FrameView {
    pub kind: u8,
    pub role: u8,
    pub sequence: u8,
    pub payload: Seq<u8>,
}

/// Whether a byte names one of the two roles.
pub open spec fn is_role(role: u8) -> bool {
    role == ROLE_INITIATOR || role == ROLE_RESPONDER
}

/// Whether a byte names one of the two authentication modes.
pub open spec fn is_mode(mode: u8) -> bool {
    mode == MODE_FIRST_CONTACT || mode == MODE_RECONNECT
}

/// The bytes of a frame.
pub open spec fn frame_bytes(f: FrameView) -> Seq<u8> {
    utf8(FRAME_MAGIC@) + seq![PROTOCOL_VERSION, f.kind, f.role, f.sequence] + field(f.payload)
}

/// The outcome of encoding a frame into at most `max` bytes.
pub open spec fn frame_encoded(f: FrameView, max: int) -> Result<Seq<u8>, SyncError> {
    if f.payload.len() > 65535 {
        Err(SyncError::FramePayloadTooLarge)
    } else if 21 + f.payload.len() > max {
        Err(SyncError::FrameTooLarge)
    } else {
        Ok(frame_bytes(f))
    }
}

/// The frame that bytes encode.
pub open spec fn frame_parsed(frame: Seq<u8>, max: int) -> Result<FrameView, SyncError> {
    if frame.len() > max {
        Err(SyncError::FrameTooLarge)
    } else if frame.len() < 15 {
        Err(SyncError::Truncated)
    } else if frame.subrange(0, 15) != utf8(FRAME_MAGIC@) {
        Err(SyncError::FrameProtocol)
    } else if frame.len() < 16 {
        Err(SyncError::Truncated)
    } else if frame[15] != PROTOCOL_VERSION {
        Err(SyncError::FrameProtocol)
    } else if frame.len() < 19 {
        Err(SyncError::Truncated)
    } else {
        match read_field(frame, 19, 65535) {
            Err(error) => Err(error),
            Ok((payload, next)) => if next != frame.len() {
                Err(SyncError::TrailingBytes)
            } else if !is_role(frame[17]) {
                Err(SyncError::FrameRole)
            } else {
                Ok(FrameView { kind: frame[16], role: frame[17], sequence: frame[18], payload })
            },
        }
    }
}

/// The frame that bytes encode, where frames carry no sequence number.
pub open spec fn plain_frame_parsed(frame: Seq<u8>, max: int) -> Result<FrameView, SyncError> {
    match frame_parsed(frame, max) {
        Err(error) => Err(error),
        Ok(f) => if f.sequence != 0 {
            Err(SyncError::FrameSequence)
        } else {
            Ok(f)
        },
    }
}

/// What the first frame of a handshake says.
#[verifier::ext_equal]
pub struct StartView {
    pub mode: u8,
    pub pair_id: Seq<char>,
    pub message: Seq<u8>,
}

/// The payload of a start frame.
pub open spec fn start_payload(s: StartView) -> Seq<u8> {
    seq![s.mode] + utf8(s.pair_id) + s.message
}

/// The outcome of encoding a start frame into at most `max` bytes.
pub open spec fn start_encoded(kind: u8, role: u8, s: StartView, max: int) -> Result<
    Seq<u8>,
    SyncError,
> {
    if !is_id(s.pair_id) {
        Err(SyncError::InvalidPairId)
    } else if !is_mode(s.mode) {
        Err(SyncError::PairingMode)
    } else {
        frame_encoded(FrameView { kind, role, sequence: 0, payload: start_payload(s) }, max)
    }
}

/// What the start frame that bytes encode says. Only the initiator starts.
pub open spec fn start_parsed(frame: Seq<u8>, max: int) -> Result<StartView, SyncError> {
    match plain_frame_parsed(frame, max) {
        Err(error) => Err(error),
        Ok(f) => if f.kind != KIND_HANDSHAKE || f.role != ROLE_INITIATOR {
            Err(SyncError::StartFrameUnexpected)
        } else if f.payload.len() < 33 {
            Err(SyncError::StartFrameTruncated)
        } else {
            let id = f.payload.subrange(1, 33);
            if !valid_utf8(id) || !is_id(decode_utf8(id)) {
                Err(SyncError::InvalidPairId)
            } else {
                Ok(
                    StartView {
                        mode: f.payload[0],
                        pair_id: decode_utf8(id),
                        message: f.payload.subrange(33, f.payload.len() as int),
                    },
                )
            }
        },
    }
}

/// The magic is ASCII, so each character is one byte.
pub proof fn frame_magic_length()
    ensures
        utf8(FRAME_MAGIC@).len() == 15,
{
    reveal_strlit("OMARCHY-PAIR-V3");
    assert(is_ascii_chars(FRAME_MAGIC@));
    is_ascii_chars_encode_utf8(FRAME_MAGIC@);
}

/// A frame with a payload that fits the limit is unchanged when it is encoded
/// and parsed again.
pub proof fn frame_round_trip(f: FrameView, max: int)
    requires
        0 < f.payload.len() <= 65535,
        21 + f.payload.len() <= max,
        is_role(f.role),
    ensures
        frame_encoded(f, max) == Ok::<Seq<u8>, SyncError>(frame_bytes(f)),
        frame_parsed(frame_bytes(f), max) == Ok::<FrameView, SyncError>(f),
{
    let b = frame_bytes(f);
    frame_magic_length();
    be_bytes_len(f.payload.len(), 2);
    assert(b.len() == 21 + f.payload.len());
    assert(b.subrange(0, 15) =~= utf8(FRAME_MAGIC@));
    assert(b[15] == PROTOCOL_VERSION);
    assert(b[16] == f.kind);
    assert(b[17] == f.role);
    assert(b[18] == f.sequence);
    assert(b.subrange(19, 21 + f.payload.len() as int) =~= field(f.payload));
    read_field_of_field(b, 19, f.payload, 65535);
}

/// Bytes that parse as a frame are its only encoding.
pub proof fn frame_canonical(b: Seq<u8>, max: int)
    requires
        frame_parsed(b, max) is Ok,
    ensures
        frame_bytes(frame_parsed(b, max)->Ok_0) == b,
        0 < frame_parsed(b, max)->Ok_0.payload.len() <= max - 21,
        is_role(frame_parsed(b, max)->Ok_0.role),
{
    let f = frame_parsed(b, max)->Ok_0;
    frame_magic_length();
    field_of_read_field(b, 19, 65535);
    let parts = b.subrange(0, 15) + seq![b[15], b[16], b[17], b[18]] + b.subrange(
        19,
        b.len() as int,
    );
    assert(parts =~= b);
    assert(frame_bytes(f) =~= parts);
}

/// The first frame of a handshake is unchanged when it is encoded and parsed
/// again: the responder learns the mode and PairID that the initiator chose.
pub proof fn start_round_trip(s: StartView, max: int)
    requires
        is_id(s.pair_id),
        is_mode(s.mode),
        54 + s.message.len() <= max <= 65535,
    ensures
        ({
            let f = FrameView {
                kind: KIND_HANDSHAKE,
                role: ROLE_INITIATOR,
                sequence: 0,
                payload: start_payload(s),
            };
            &&& start_encoded(KIND_HANDSHAKE, ROLE_INITIATOR, s, max) == Ok::<Seq<u8>, SyncError>(
                frame_bytes(f),
            )
            &&& start_parsed(frame_bytes(f), max) == Ok::<StartView, SyncError>(s)
        }),
{
    let payload = start_payload(s);
    let f = FrameView { kind: KIND_HANDSHAKE, role: ROLE_INITIATOR, sequence: 0, payload };
    frame_round_trip(f, max);
    encode_utf8_valid_utf8(s.pair_id);
    encode_utf8_decode_utf8(s.pair_id);
    assert(payload.subrange(1, 33) =~= utf8(s.pair_id));
    assert(payload.subrange(33, payload.len() as int) =~= s.message);
}

/// A frame of any other protocol version is refused, whatever it holds.
pub proof fn other_versions_refused(frame: Seq<u8>, max: int)
    requires
        frame.len() > 15,
        frame[15] != PROTOCOL_VERSION,
    ensures
        frame_parsed(frame, max) is Err,
        plain_frame_parsed(frame, max) is Err,
        start_parsed(frame, max) is Err,
{
}

/// A frame that parses names the role that it was encoded with.
pub proof fn frame_keeps_role(f: FrameView, max: int)
    requires
        frame_parsed(frame_bytes(f), max) is Ok,
    ensures
        frame_parsed(frame_bytes(f), max)->Ok_0.role == f.role,
{
    frame_magic_length();
    assert(frame_bytes(f)[17] == f.role);
}

/// Encodes a frame.
pub fn encode_frame_with_sequence(
    kind: u8,
    role: u8,
    sequence: u8,
    payload: &[u8],
    max: usize,
) -> (result: Result<Vec<u8>, SyncError>)
    ensures
        outcome(result) == frame_encoded(
            FrameView { kind, role, sequence, payload: payload@ },
            max as int,
        ),
        result matches Ok(frame) ==> frame@.len() == 21 + payload@.len(),
{
    if payload.len() > 65535 {
        return Err(SyncError::FramePayloadTooLarge);
    }
    let mut out: Vec<u8> = Vec::new();
    append(&mut out, FRAME_MAGIC.as_bytes());
    out.push(PROTOCOL_VERSION);
    out.push(kind);
    out.push(role);
    out.push(sequence);
    put_u16(&mut out, payload.len() as u16);
    append(&mut out, payload);
    proof {
        frame_magic_length();
        be_bytes_len(payload@.len(), 2);
        assert(out@ =~= frame_bytes(FrameView { kind, role, sequence, payload: payload@ }));
    }
    if out.len() > max {
        return Err(SyncError::FrameTooLarge);
    }
    Ok(out)
}

/// Encodes a frame without sequence number.
pub fn encode_frame(kind: u8, role: u8, payload: &[u8], max: usize) -> (result: Result<
    Vec<u8>,
    SyncError,
>)
    ensures
        outcome(result) == frame_encoded(
            FrameView { kind, role, sequence: 0, payload: payload@ },
            max as int,
        ),
        result matches Ok(frame) ==> frame@.len() == 21 + payload@.len(),
{
    encode_frame_with_sequence(kind, role, 0, payload, max)
}

/// The kind, role, sequence number and payload of a frame.
pub fn decode_frame_with_sequence<'a>(frame: &'a [u8], max: usize) -> (result: Result<
    (u8, u8, u8, &'a [u8]),
    SyncError,
>)
    ensures
        match result {
            Ok((kind, role, sequence, payload)) => frame_parsed(frame@, max as int) == Ok::<
                FrameView,
                SyncError,
            >(FrameView { kind, role, sequence, payload: payload@ }),
            Err(error) => frame_parsed(frame@, max as int) == Err::<FrameView, SyncError>(error),
        },
{
    if frame.len() > max {
        return Err(SyncError::FrameTooLarge);
    }
    proof {
        frame_magic_length();
    }
    let mut c = Cursor::new(frame);
    let magic = c.take(15)?;
    if !bytes_eq(magic, FRAME_MAGIC.as_bytes()) {
        return Err(SyncError::FrameProtocol);
    }
    let version: u8 = c.u8()?;
    if version != PROTOCOL_VERSION {
        return Err(SyncError::FrameProtocol);
    }
    let kind: u8 = c.u8()?;
    let role: u8 = c.u8()?;
    let sequence: u8 = c.u8()?;
    let payload = c.bytes(65535)?;
    c.finish()?;
    if role != ROLE_INITIATOR && role != ROLE_RESPONDER {
        return Err(SyncError::FrameRole);
    }
    Ok((kind, role, sequence, payload))
}

/// The kind, role and payload of a frame without sequence number.
pub fn decode_frame<'a>(frame: &'a [u8], max: usize) -> (result: Result<
    (u8, u8, &'a [u8]),
    SyncError,
>)
    ensures
        match result {
            Ok((kind, role, payload)) => plain_frame_parsed(frame@, max as int) == Ok::<
                FrameView,
                SyncError,
            >(FrameView { kind, role, sequence: 0, payload: payload@ }),
            Err(error) => plain_frame_parsed(frame@, max as int) == Err::<FrameView, SyncError>(
                error,
            ),
        },
        result matches Ok((kind, role, payload)) ==> payload@.len() <= max,
{
    let (kind, role, sequence, payload) = decode_frame_with_sequence(frame, max)?;
    if sequence != 0 {
        return Err(SyncError::FrameSequence);
    }
    proof {
        frame_canonical(frame@, max as int);
    }
    Ok((kind, role, payload))
}

/// Refuses a text that does not have the form of a PairID.
pub fn validate_pair_id(pair_id: &str) -> (result: Result<(), SyncError>)
    ensures
        result == (if is_id(pair_id@) {
            Ok::<(), SyncError>(())
        } else {
            Err(SyncError::InvalidPairId)
        }),
{
    if !check_id(pair_id) {
        return Err(SyncError::InvalidPairId);
    }
    Ok(())
}

/// Encodes the first frame of a handshake.
pub fn encode_start_frame(
    kind: u8,
    role: u8,
    mode: u8,
    pair_id: &str,
    payload: &[u8],
    max: usize,
) -> (result: Result<Vec<u8>, SyncError>)
    ensures
        outcome(result) == start_encoded(
            kind,
            role,
            StartView { mode, pair_id: pair_id@, message: payload@ },
            max as int,
        ),
{
    validate_pair_id(pair_id)?;
    if mode != MODE_FIRST_CONTACT && mode != MODE_RECONNECT {
        return Err(SyncError::PairingMode);
    }
    let mut wrapped: Vec<u8> = Vec::new();
    wrapped.push(mode);
    append(&mut wrapped, pair_id.as_bytes());
    append(&mut wrapped, payload);
    assert(wrapped@ =~= start_payload(
        StartView { mode, pair_id: pair_id@, message: payload@ },
    ));
    encode_frame(kind, role, wrapped.as_slice(), max)
}

/// The mode, PairID and handshake message of a start frame.
pub fn decode_start_frame<'a>(frame: &'a [u8], max: usize) -> (result: Result<
    (u8, String, &'a [u8]),
    SyncError,
>)
    ensures
        match result {
            Ok((mode, pair_id, message)) => start_parsed(frame@, max as int) == Ok::<
                StartView,
                SyncError,
            >(StartView { mode, pair_id: pair_id@, message: message@ }),
            Err(error) => start_parsed(frame@, max as int) == Err::<StartView, SyncError>(error),
        },
        result matches Ok((mode, pair_id, message)) ==> message@.len() <= max && is_id(pair_id@),
{
    let (kind, role, payload) = decode_frame(frame, max)?;
    if kind != KIND_HANDSHAKE || role != ROLE_INITIATOR {
        return Err(SyncError::StartFrameUnexpected);
    }
    if payload.len() < 33 {
        return Err(SyncError::StartFrameTruncated);
    }
    let mode: u8 = payload[0];
    let pair_id = match text_from_utf8(slice_subrange(payload, 1, 33)) {
        Some(text) => text,
        None => {
            return Err(SyncError::InvalidPairId);
        },
    };
    validate_pair_id(pair_id.as_str())?;
    Ok((mode, pair_id, slice_subrange(payload, 33, payload.len())))
}

} // verus!
