//! The Noise XX channel, as the `snow` crate provides it.
//!
//! `snow`'s state types are opaque here. What the library relies on is given
//! names: what a state holds ([`handshake_view`], [`transport_view`]) and what
//! each operation makes of it. The verified functions below manage buffers and
//! report refusals.
use crate::error::SyncError;
use snow::params::NoiseParams;
use snow::Builder;
use vstd::prelude::*;

verus! {

pub const NOISE_PARAMS: &'static str = "Noise_XX_25519_ChaChaPoly_BLAKE2s";

/// The room given to one handshake message.
pub const HANDSHAKE_BUFFER: usize = 2048;

/// `snow::HandshakeState`: one end of a Noise handshake.
#[verifier::external_type_specification]
#[verifier::external_body]
pub struct ExHandshakeState(snow::HandshakeState);

/// `snow::TransportState`: one end of a channel after the handshake.
#[verifier::external_type_specification]
#[verifier::external_body]
pub struct ExTransportState(snow::TransportState);

/// `snow::Error`.
#[verifier::external_type_specification]
#[verifier::external_body]
pub struct ExNoiseError(snow::Error);

/// What a handshake state holds: the protocol, the side it is on, its static
/// secret key, how many messages have been written and read, the handshake
/// hash, and the rest (ephemeral keys, keys received, chaining key) as bytes.
pub struct HandshakeView {
    pub params: Seq<char>,
    pub initiator: bool,
    pub secret: Seq<u8>,
    pub position: nat,
    pub hash: Seq<u8>,
    pub inner: Seq<u8>,
}

impl HandshakeView {
    /// Whether it is this side's turn to write: the sides alternate, and the
    /// initiator begins.
    pub open spec fn my_turn(self) -> bool {
        self.initiator == (self.position % 2 == 0)
    }
}

/// What a transport state holds: the protocol, and the key and next nonce of
/// either direction.
pub struct TransportView {
    pub params: Seq<char>,
    pub send_key: Seq<u8>,
    pub send_nonce: u64,
    pub receive_key: Seq<u8>,
    pub receive_nonce: u64,
}

/// What a `snow::HandshakeState` holds.
pub uninterp spec fn handshake_view(state: snow::HandshakeState) -> HandshakeView;

/// What a `snow::TransportState` holds.
pub uninterp spec fn transport_view(state: snow::TransportState) -> TransportView;

/// The public key of a static secret key.
pub uninterp spec fn noise_public(secret: Seq<u8>) -> Seq<u8>;

/// What a handshake holds at its start, given its side, static secret key and
/// prologue.
pub uninterp spec fn noise_start(
    initiator: bool,
    secret: Seq<u8>,
    prologue: Seq<u8>,
) -> HandshakeView;

/// The message that a handshake writes for a payload when its random source
/// gives `ephemeral`, and what it holds then.
pub uninterp spec fn noise_write(
    view: HandshakeView,
    payload: Seq<u8>,
    ephemeral: Seq<u8>,
) -> (Seq<u8>, HandshakeView);

/// Whether a handshake accepts a message, and what it holds then.
pub uninterp spec fn noise_read(view: HandshakeView, message: Seq<u8>) -> (bool, HandshakeView);

/// The static public key that a handshake has received.
pub uninterp spec fn noise_remote_static(view: HandshakeView) -> Option<Seq<u8>>;

/// What a finished handshake becomes.
pub uninterp spec fn noise_transport(view: HandshakeView) -> TransportView;

/// ChaCha20-Poly1305 encryption without associated data.
pub uninterp spec fn noise_seal(key: Seq<u8>, nonce: u64, plaintext: Seq<u8>) -> Seq<u8>;

/// ChaCha20-Poly1305 decryption without associated data.
pub uninterp spec fn noise_open(key: Seq<u8>, nonce: u64, ciphertext: Seq<u8>) -> Option<Seq<u8>>;

/// The handshake hash at the start, which covers the prologue.
pub uninterp spec fn noise_hash_start(prologue: Seq<u8>) -> Seq<u8>;

/// The handshake hash after a message, which covers the hash before it.
pub uninterp spec fn noise_hash_next(position: nat, hash: Seq<u8>, message: Seq<u8>) -> Seq<u8>;

/// `snow::Builder::generate_keypair` for the pinned protocol: a random secret
/// key and its public key, thirty-two bytes each. With `snow`'s default
/// resolver there is no error to report.
#[verifier::external_body]
pub(crate) fn generate_keypair(params: &str) -> (result: Result<(Vec<u8>, Vec<u8>), snow::Error>)
    requires
        params@ == NOISE_PARAMS@,
    ensures
        result is Ok,
        result matches Ok(pair) ==> {
            &&& pair.0@.len() == 32
            &&& pair.1@.len() == 32
            &&& pair.1@ == noise_public(pair.0@)
        },
{
    let params: NoiseParams = params.parse()?;
    let pair = Builder::new(params).generate_keypair()?;
    Ok((pair.private, pair.public))
}

/// `snow::Builder::build_initiator`, with a static secret key and a prologue:
/// the initiating end of the pinned protocol, before the first message. The
/// handshake hash covers the prologue.
#[verifier::external_body]
pub(crate) fn build_initiator(params: &str, secret: &[u8], prologue: &[u8]) -> (result: Result<
    snow::HandshakeState,
    snow::Error,
>)
    requires
        params@ == NOISE_PARAMS@,
        secret@.len() == 32,
    ensures
        result is Ok,
        result matches Ok(state) ==> {
            let v = handshake_view(state);
            &&& v == noise_start(true, secret@, prologue@)
            &&& v.params == params@
            &&& v.initiator
            &&& v.secret == secret@
            &&& v.position == 0
            &&& v.hash == noise_hash_start(prologue@)
        },
{
    let params: NoiseParams = params.parse()?;
    Builder::new(params).local_private_key(secret).prologue(prologue).build_initiator()
}

/// `snow::Builder::build_responder`, with a static secret key and a prologue:
/// the responding end of the pinned protocol, before the first message. The
/// handshake hash covers the prologue.
#[verifier::external_body]
pub(crate) fn build_responder(params: &str, secret: &[u8], prologue: &[u8]) -> (result: Result<
    snow::HandshakeState,
    snow::Error,
>)
    requires
        params@ == NOISE_PARAMS@,
        secret@.len() == 32,
    ensures
        result is Ok,
        result matches Ok(state) ==> {
            let v = handshake_view(state);
            &&& v == noise_start(false, secret@, prologue@)
            &&& v.params == params@
            &&& !v.initiator
            &&& v.secret == secret@
            &&& v.position == 0
            &&& v.hash == noise_hash_start(prologue@)
        },
{
    let params: NoiseParams = params.parse()?;
    Builder::new(params).local_private_key(secret).prologue(prologue).build_responder()
}

/// `snow::HandshakeState::write_message`. It succeeds exactly when it is this
/// side's turn, messages are left and the message is not too long; the message
/// then carries at most ninety-six bytes besides the payload, and the handshake
/// hash covers it. What it writes depends on the state, the payload and one
/// random key.
pub assume_specification[ snow::HandshakeState::write_message ](
    state: &mut snow::HandshakeState,
    payload: &[u8],
    message: &mut [u8],
) -> (result: Result<usize, snow::Error>)
    requires
        handshake_view(*old(state)).params == NOISE_PARAMS@,
        payload@.len() <= 65439,
        old(message)@.len() >= payload@.len() + 96,
    ensures
        final(message)@.len() == old(message)@.len(),
        result is Ok <==> (handshake_view(*old(state)).my_turn() && handshake_view(
            *old(state),
        ).position < 3),
        result is Err ==> handshake_view(*final(state)) == handshake_view(*old(state)),
        result matches Ok(length) ==> {
            let before = handshake_view(*old(state));
            let after = handshake_view(*final(state));
            let written = final(message)@.subrange(0, length as int);
            &&& payload@.len() < length <= payload@.len() + 96
            &&& exists|ephemeral: Seq<u8>|
                ephemeral.len() == 32 && #[trigger] noise_write(before, payload@, ephemeral) == (
                    written,
                    after,
                )
            &&& after.params == before.params
            &&& after.initiator == before.initiator
            &&& after.secret == before.secret
            &&& after.position == before.position + 1
            &&& after.hash == noise_hash_next(before.position, before.hash, written)
        },
;

/// `snow::HandshakeState::read_message`. Whether the message is accepted, and
/// what the state holds then, depends on the state and the message; a message
/// out of turn or longer than 65535 bytes is refused. The handshake hash covers
/// an accepted message and is unchanged by a refused one.
pub assume_specification[ snow::HandshakeState::read_message ](
    state: &mut snow::HandshakeState,
    message: &[u8],
    payload: &mut [u8],
) -> (result: Result<usize, snow::Error>)
    requires
        handshake_view(*old(state)).params == NOISE_PARAMS@,
        old(payload)@.len() >= message@.len(),
    ensures
        final(payload)@.len() == old(payload)@.len(),
        noise_read(handshake_view(*old(state)), message@) == (
            result is Ok,
            handshake_view(*final(state)),
        ),
        result is Ok ==> !handshake_view(*old(state)).my_turn() && handshake_view(
            *old(state),
        ).position < 3 && message@.len() <= 65535,
        handshake_view(*final(state)).params == handshake_view(*old(state)).params,
        handshake_view(*final(state)).initiator == handshake_view(*old(state)).initiator,
        handshake_view(*final(state)).secret == handshake_view(*old(state)).secret,
        handshake_view(*final(state)).position == handshake_view(*old(state)).position + (
        if result is Ok {
            1int
        } else {
            0int
        }),
        handshake_view(*final(state)).hash == (if result is Ok {
            noise_hash_next(
                handshake_view(*old(state)).position,
                handshake_view(*old(state)).hash,
                message@,
            )
        } else {
            handshake_view(*old(state)).hash
        }),
;

/// `snow::HandshakeState::is_handshake_finished`: whether all three messages
/// of the pattern have been written and read.
pub assume_specification[ snow::HandshakeState::is_handshake_finished ](
    state: &snow::HandshakeState,
) -> (result: bool)
    requires
        handshake_view(*state).params == NOISE_PARAMS@,
    ensures
        result == (handshake_view(*state).position == 3),
;

/// `snow::HandshakeState::get_remote_static`, copied: the peer's static public
/// key, of thirty-two bytes, which is known once the handshake is finished.
#[verifier::external_body]
pub(crate) fn remote_static(state: &snow::HandshakeState) -> (result: Option<Vec<u8>>)
    requires
        handshake_view(*state).params == NOISE_PARAMS@,
    ensures
        (match result {
            Some(key) => Some(key@),
            None => None,
        }) == noise_remote_static(handshake_view(*state)),
        result matches Some(key) ==> key@.len() == 32,
        handshake_view(*state).position == 3 ==> result is Some,
{
    state.get_remote_static().map(|key| key.to_vec())
}

/// `snow::HandshakeState::get_handshake_hash`: the hash over everything
/// exchanged, of thirty-two bytes.
#[verifier::external_body]
pub(crate) fn handshake_hash(state: &snow::HandshakeState) -> (result: &[u8])
    requires
        handshake_view(*state).params == NOISE_PARAMS@,
    ensures
        result@ == handshake_view(*state).hash,
        result@.len() == 32,
{
    state.get_handshake_hash()
}

/// `snow::HandshakeState::into_transport_mode`: succeeds exactly for a
/// finished handshake. Either direction has a key of its own, and both nonces
/// start at zero.
pub assume_specification[ snow::HandshakeState::into_transport_mode ](
    state: snow::HandshakeState,
) -> (result: Result<snow::TransportState, snow::Error>)
    requires
        handshake_view(state).params == NOISE_PARAMS@,
    ensures
        result is Ok <==> handshake_view(state).position == 3,
        result matches Ok(transport) ==> {
            let t = transport_view(transport);
            &&& t == noise_transport(handshake_view(state))
            &&& t.params == NOISE_PARAMS@
            &&& t.send_nonce == 0
            &&& t.receive_nonce == 0
        },
;

/// `snow::TransportState::write_message`: encrypts with the sending key and
/// nonce, and counts the nonce up. It fails, without effect, exactly when the
/// ciphertext is too long for a Noise message or for the buffer, or the nonces
/// are used up. Decryption with the same key and nonce gives the plaintext
/// back.
pub assume_specification[ snow::TransportState::write_message ](
    state: &mut snow::TransportState,
    payload: &[u8],
    message: &mut [u8],
) -> (result: Result<usize, snow::Error>)
    requires
        transport_view(*old(state)).params == NOISE_PARAMS@,
    ensures
        final(message)@.len() == old(message)@.len(),
        result is Ok <==> (payload@.len() + 16 <= 65535 && payload@.len() + 16 <= old(
            message,
        )@.len() && transport_view(*old(state)).send_nonce < u64::MAX),
        result is Err ==> transport_view(*final(state)) == transport_view(*old(state)),
        result matches Ok(length) ==> {
            let before = transport_view(*old(state));
            let sealed = final(message)@.subrange(0, length as int);
            &&& length == payload@.len() + 16
            &&& sealed == noise_seal(before.send_key, before.send_nonce, payload@)
            &&& noise_open(before.send_key, before.send_nonce, sealed) == Some(payload@)
            &&& transport_view(*final(state)) == (TransportView {
                send_nonce: (before.send_nonce + 1) as u64,
                ..before
            })
        },
;

/// `snow::TransportState::read_message`: decrypts with the receiving key and
/// nonce, and counts the nonce up. It fails, without effect on the keys and
/// nonces, exactly when the ciphertext is too long, too short for a tag, too
/// long for the buffer or not authentic, or the nonces are used up.
pub assume_specification[ snow::TransportState::read_message ](
    state: &mut snow::TransportState,
    payload: &[u8],
    message: &mut [u8],
) -> (result: Result<usize, snow::Error>)
    requires
        transport_view(*old(state)).params == NOISE_PARAMS@,
    ensures
        final(message)@.len() == old(message)@.len(),
        ({
            let before = transport_view(*old(state));
            let opened = noise_open(before.receive_key, before.receive_nonce, payload@);
            &&& result is Ok <==> (16 <= payload@.len() <= 65535 && payload@.len() - 16 <= old(
                message,
            )@.len() && before.receive_nonce < u64::MAX && opened is Some)
            &&& result is Err ==> transport_view(*final(state)) == before
            &&& result matches Ok(length) ==> {
                &&& length == payload@.len() - 16
                &&& Some(final(message)@.subrange(0, length as int)) == opened
                &&& transport_view(*final(state)) == (TransportView {
                    receive_nonce: (before.receive_nonce + 1) as u64,
                    ..before
                })
            }
        }),
;

// ---------------------------------------------------------------------------
// Buffers and refusals.
// ---------------------------------------------------------------------------
/// What becomes of a transport that seals a plaintext.
pub open spec fn sealed(t: TransportView, plaintext: Seq<u8>) -> Option<(Seq<u8>, TransportView)> {
    if plaintext.len() + 16 > 65535 || t.send_nonce == u64::MAX {
        None
    } else {
        Some(
            (
                noise_seal(t.send_key, t.send_nonce, plaintext),
                TransportView { send_nonce: (t.send_nonce + 1) as u64, ..t },
            ),
        )
    }
}

/// What becomes of a transport that opens a ciphertext into a plaintext of at
/// most `room` bytes.
pub open spec fn opened(t: TransportView, ciphertext: Seq<u8>, room: int) -> Option<
    (Seq<u8>, TransportView),
> {
    if !(16 <= ciphertext.len() <= 65535) || ciphertext.len() - 16 > room || t.receive_nonce
        == u64::MAX {
        None
    } else {
        match noise_open(t.receive_key, t.receive_nonce, ciphertext) {
            None => None,
            Some(plaintext) => Some(
                (plaintext, TransportView { receive_nonce: (t.receive_nonce + 1) as u64, ..t }),
            ),
        }
    }
}

/// What becomes of a handshake that writes a message without payload when its
/// random source gives `ephemeral`.
pub open spec fn handshake_written(view: HandshakeView, ephemeral: Seq<u8>) -> Option<
    (Seq<u8>, HandshakeView),
> {
    if view.my_turn() && view.position < 3 {
        Some(noise_write(view, Seq::empty(), ephemeral))
    } else {
        None
    }
}

/// Encrypts `plaintext`.
pub(crate) fn seal(
    transport: &mut snow::TransportState,
    plaintext: &[u8],
    refusal: SyncError,
) -> (result: Result<Vec<u8>, SyncError>)
    requires
        transport_view(*old(transport)).params == NOISE_PARAMS@,
        plaintext@.len() <= 65535,
    ensures
        transport_view(*final(transport)).params == NOISE_PARAMS@,
        match sealed(transport_view(*old(transport)), plaintext@) {
            None => {
                &&& result == Err::<Vec<u8>, SyncError>(refusal)
                &&& transport_view(*final(transport)) == transport_view(*old(transport))
            },
            Some((ciphertext, after)) => {
                &&& result matches Ok(bytes)
                &&& bytes@ == ciphertext
                &&& bytes@.len() == plaintext@.len() + 16
                &&& noise_open(
                    transport_view(*old(transport)).send_key,
                    transport_view(*old(transport)).send_nonce,
                    bytes@,
                ) == Some(plaintext@)
                &&& transport_view(*final(transport)) == after
            },
        },
{
    let mut ciphertext: Vec<u8> = vec![0u8; plaintext.len() + 16];
    match transport.write_message(plaintext, ciphertext.as_mut_slice()) {
        Ok(length) => {
            ciphertext.truncate(length);
            Ok(ciphertext)
        },
        Err(_) => Err(refusal),
    }
}

/// Decrypts `ciphertext`.
pub(crate) fn open(
    transport: &mut snow::TransportState,
    ciphertext: &[u8],
    room: usize,
    refusal: SyncError,
) -> (result: Result<Vec<u8>, SyncError>)
    requires
        transport_view(*old(transport)).params == NOISE_PARAMS@,
    ensures
        transport_view(*final(transport)).params == NOISE_PARAMS@,
        match opened(transport_view(*old(transport)), ciphertext@, room as int) {
            None => {
                &&& result == Err::<Vec<u8>, SyncError>(refusal)
                &&& transport_view(*final(transport)) == transport_view(*old(transport))
            },
            Some((plaintext, after)) => {
                &&& result matches Ok(bytes)
                &&& bytes@ == plaintext
                &&& bytes@.len() <= room
                &&& transport_view(*final(transport)) == after
            },
        },
{
    let mut plaintext: Vec<u8> = vec![0u8; room];
    match transport.read_message(ciphertext, plaintext.as_mut_slice()) {
        Ok(length) => {
            plaintext.truncate(length);
            Ok(plaintext)
        },
        Err(_) => Err(refusal),
    }
}

/// Writes the next handshake message, without payload.
pub(crate) fn write_handshake(handshake: &mut snow::HandshakeState) -> (result: Result<
    Vec<u8>,
    SyncError,
>)
    requires
        handshake_view(*old(handshake)).params == NOISE_PARAMS@,
    ensures
        handshake_view(*final(handshake)).params == NOISE_PARAMS@,
        handshake_view(*final(handshake)).initiator == handshake_view(*old(handshake)).initiator,
        handshake_view(*final(handshake)).secret == handshake_view(*old(handshake)).secret,
        result is Ok <==> (handshake_view(*old(handshake)).my_turn() && handshake_view(
            *old(handshake),
        ).position < 3),
        result matches Err(error) ==> {
            &&& error == SyncError::NoiseWrite
            &&& handshake_view(*final(handshake)) == handshake_view(*old(handshake))
        },
        result matches Ok(message) ==> {
            let before = handshake_view(*old(handshake));
            let after = handshake_view(*final(handshake));
            &&& 0 < message@.len() <= 96
            &&& exists|ephemeral: Seq<u8>|
                ephemeral.len() == 32 && #[trigger] noise_write(before, Seq::empty(), ephemeral)
                    == (message@, after)
            &&& after.position == before.position + 1
            &&& after.hash == noise_hash_next(before.position, before.hash, message@)
        },
{
    let payload: Vec<u8> = Vec::new();
    let mut message: Vec<u8> = vec![0u8; HANDSHAKE_BUFFER];
    assert(payload@ =~= Seq::empty());
    match handshake.write_message(payload.as_slice(), message.as_mut_slice()) {
        Ok(length) => {
            message.truncate(length);
            Ok(message)
        },
        Err(_) => Err(SyncError::NoiseWrite),
    }
}

/// Reads the next handshake message and drops its payload.
pub(crate) fn read_handshake(handshake: &mut snow::HandshakeState, message: &[u8]) -> (result:
    Result<(), SyncError>)
    requires
        handshake_view(*old(handshake)).params == NOISE_PARAMS@,
        message@.len() <= HANDSHAKE_BUFFER,
    ensures
        ({
            let before = handshake_view(*old(handshake));
            let after = handshake_view(*final(handshake));
            &&& after == noise_read(before, message@).1
            &&& result == (if noise_read(before, message@).0 {
                Ok::<(), SyncError>(())
            } else {
                Err(SyncError::NoiseRead)
            })
            &&& result is Ok ==> !before.my_turn() && before.position < 3
            &&& after.params == before.params
            &&& after.initiator == before.initiator
            &&& after.secret == before.secret
            &&& after.position == (if result is Ok {
                before.position + 1
            } else {
                before.position
            })
            &&& after.hash == (if result is Ok {
                noise_hash_next(before.position, before.hash, message@)
            } else {
                before.hash
            })
        }),
{
    let mut payload: Vec<u8> = vec![0u8; HANDSHAKE_BUFFER];
    match handshake.read_message(message, payload.as_mut_slice()) {
        Ok(_) => Ok(()),
        Err(_) => Err(SyncError::NoiseRead),
    }
}

} // verus!
