//! What holds of the two ends of a pairing together.
use crate::authentication::{
    auth_magic_lengths, hello_bytes, hello_encoded, hello_round_trip, proof_round_trip,
    signature_binds, signature_message, transcript_binds, transcript_bytes, transcript_encoded,
    AuthView, TranscriptView, ACK_MAGIC,
};
use crate::codec::{be_bytes_len, utf8};
use crate::crypto::{
    accepts_only, ed25519_key_valid, ed25519_public, ed25519_sign, ed25519_verifies,
};
use crate::error::SyncError;
use crate::frames::{
    frame_keeps_role, frame_magic_length, frame_parsed, frame_round_trip, is_role,
    plain_frame_parsed, start_round_trip, FrameView, StartView, KIND_AUTH, KIND_HANDSHAKE,
    KIND_TRANSPORT, MAX_AUTH_FRAME, MAX_AUTH_PLAINTEXT, MAX_HANDSHAKE_FRAME, MAX_TRANSPORT_FRAME,
    MAX_TRANSPORT_PLAINTEXT, ROLE_INITIATOR, ROLE_RESPONDER,
};
use crate::noise::{
    handshake_written, noise_open, noise_public, noise_read, noise_seal, noise_start,
    HandshakeView, TransportView,
};
use crate::pairing::{
    auth_opened, auth_sealed, handshake_finished, prologue, InfoView, InitiatorView,
    ResponderView, SessionView, ValidationView,
};
use crate::protocol_v3::{certificate_shape_error, CertificateView};
use crate::text::is_id;
use vstd::prelude::*;

verus! {

/// Decryption undoes encryption, and a ciphertext is sixteen bytes longer than
/// its plaintext. [`crate::noise`] says so of every ciphertext that it makes.
pub open spec fn aead_sound() -> bool {
    forall|key: Seq<u8>, nonce: u64, plaintext: Seq<u8>|
        {
            let ciphertext = #[trigger] noise_seal(key, nonce, plaintext);
            &&& ciphertext.len() == plaintext.len() + 16
            &&& noise_open(key, nonce, ciphertext) == Some(plaintext)
        }
}

/// Whether one transport receives what the other sends, in both directions.
pub open spec fn matched(a: TransportView, b: TransportView) -> bool {
    &&& a.send_key == b.receive_key
    &&& a.send_nonce == b.receive_nonce
    &&& a.receive_key == b.send_key
    &&& a.receive_nonce == b.send_nonce
}

/// An authentication payload that one end sends over matched transports is
/// what the other receives, and the transports still match.
proof fn auth_delivered(
    from: TransportView,
    to: TransportView,
    role: u8,
    sequence: u8,
    plaintext: Seq<u8>,
)
    requires
        aead_sound(),
        matched(from, to),
        from.send_nonce < u64::MAX,
        plaintext.len() <= MAX_AUTH_PLAINTEXT,
        is_role(role),
    ensures
        ({
            let (frame, sent) = auth_sealed(from, role, sequence, plaintext);
            &&& frame is Ok
            &&& ({
                let (received, read) = auth_opened(to, frame->Ok_0, role, sequence);
                &&& received == Ok::<Seq<u8>, SyncError>(plaintext)
                &&& matched(sent, read)
                &&& sent.send_nonce == from.send_nonce + 1
                &&& sent.receive_nonce == from.receive_nonce
                &&& read.params == to.params
                &&& sent.params == from.params
            })
        }),
{
    reveal(auth_sealed);
    reveal(auth_opened);
    let ciphertext = noise_seal(from.send_key, from.send_nonce, plaintext);
    frame_round_trip(
        FrameView { kind: KIND_AUTH, role, sequence, payload: ciphertext },
        MAX_AUTH_FRAME as int,
    );
}

/// A certificate of valid form and full length.
pub open spec fn presentable(c: CertificateView) -> bool {
    &&& certificate_shape_error(c) is None
    &&& c.public_key.len() == 32
    &&& c.signature.len() == 64
}

/// Whether two ends are set up for each other: the same PairID and mode, each
/// accepting and expecting the other, each holding the key of the certificate
/// it presents.
pub open spec fn set_up(i: InitiatorView, r: ResponderView) -> bool {
    &&& is_id(i.pair_id)
    &&& r.pair_id == Some(i.pair_id)
    &&& i.validation.mode() == r.validation.mode()
    &&& presentable(i.certificate)
    &&& presentable(r.certificate)
    &&& i.certificate.public_key == ed25519_public(i.identity)
    &&& r.certificate.public_key == ed25519_public(r.identity)
    &&& ed25519_key_valid(i.certificate.public_key)
    &&& ed25519_key_valid(r.certificate.public_key)
    &&& i.expected_peer == r.certificate.device_id
    &&& r.expected_peer == i.certificate.device_id
    &&& i.certificate.device_id != r.certificate.device_id
    &&& i.validation.accepts(
        r.certificate.device_id,
        r.certificate.public_key,
        r.certificate,
        ROLE_RESPONDER,
    )
    &&& r.validation.accepts(
        i.certificate.device_id,
        i.certificate.public_key,
        i.certificate,
        ROLE_INITIATOR,
    )
}

/// Whether two sessions are the two ends of one exchange.
pub open spec fn ends_agree(initiator: SessionView, responder: SessionView) -> bool {
    &&& initiator.local_role == ROLE_INITIATOR
    &&& responder.local_role == ROLE_RESPONDER
    &&& initiator.pair_id == responder.pair_id
    &&& initiator.session_binding == responder.session_binding
    &&& initiator.local_certificate == responder.peer_certificate
    &&& initiator.peer_certificate == responder.local_certificate
    &&& initiator.local_device_id == responder.peer_device_id
    &&& initiator.peer_device_id == responder.local_device_id
    &&& initiator.local_device_id != responder.local_device_id
}

/// Whether a session is what an initiator and a responder that are set up for
/// each other come to: it is the initiator's, under its PairID, between the two
/// certificates, and either end has sent two messages.
pub open spec fn comes_of(s: SessionView, i: InitiatorView, r: ResponderView) -> bool {
    &&& s.pair_id == i.pair_id
    &&& s.local_certificate == i.certificate
    &&& s.peer_certificate == r.certificate
    &&& s.local_device_id == i.certificate.device_id
    &&& s.peer_device_id == r.certificate.device_id
    &&& s.transport.send_nonce == 2
    &&& s.transport.receive_nonce == 2
}

/// What the Noise handshake delivers to two honest ends: matching transports
/// at their start, one handshake hash, and each other's static key.
pub open spec fn channel_established(
    i: InitiatorView,
    initiator: (TransportView, InfoView),
    r: ResponderView,
    responder: (TransportView, InfoView),
) -> bool {
    &&& matched(initiator.0, responder.0)
    &&& initiator.0.send_nonce == 0
    &&& initiator.0.receive_nonce == 0
    &&& initiator.1.hash == responder.1.hash
    &&& initiator.1.remote_static == r.local_static
    &&& responder.1.remote_static == i.local_static
}

/// The transcript that both ends of an established channel make.
pub open spec fn shared_transcript(
    i: InitiatorView,
    info: InfoView,
    r: ResponderView,
) -> TranscriptView {
    i.transcript_with(info, r.certificate)
}

/// Whether an identity's signature in a role over a transcript is accepted.
pub open spec fn signs(secret: Seq<u8>, transcript: Seq<u8>, role: u8) -> bool {
    let message = signature_message(transcript, role);
    let signature = ed25519_sign(secret, message);
    &&& signature.len() == 64
    &&& ed25519_verifies(ed25519_public(secret), message, signature)
}

/// The responder takes the initiator's hello for what it is.
proof fn hello_is_judged(i: InitiatorView, info: InfoView, r: ResponderView)
    requires
        set_up(i, r),
        r.info matches Some(other) && {
            &&& other.hash == info.hash
            &&& other.remote_static == i.local_static
            &&& info.remote_static == r.local_static
        },
    ensures
        hello_encoded(i.certificate) == Ok::<Seq<u8>, SyncError>(hello_bytes(i.certificate)),
        hello_bytes(i.certificate).len() <= 374,
        transcript_encoded(shared_transcript(i, info, r)) == Ok::<Seq<u8>, SyncError>(
            transcript_bytes(shared_transcript(i, info, r)),
        ),
        r.judged(hello_bytes(i.certificate)) == Ok::<(AuthView, Seq<u8>), SyncError>(
            (
                AuthView {
                    certificate: i.certificate,
                    public_key: i.certificate.public_key,
                    device_id: i.certificate.device_id,
                    signature: None,
                },
                transcript_bytes(shared_transcript(i, info, r)),
            ),
        ),
{
    reveal(ResponderView::judged);
    hello_round_trip(i.certificate);
    let t = r.transcript_with(r.info->Some_0, i.pair_id, i.certificate);
    assert(t =~= shared_transcript(i, info, r));
}

/// The initiator takes the responder's proof for what it is.
proof fn proof_is_judged(i: InitiatorView, info: InfoView, r: ResponderView, signature: Seq<u8>)
    requires
        set_up(i, r),
        i.info == Some(info),
        signature.len() == 64,
        ed25519_verifies(
            r.certificate.public_key,
            signature_message(transcript_bytes(shared_transcript(i, info, r)), ROLE_RESPONDER),
            signature,
        ),
    ensures
        hello_encoded(r.certificate) == Ok::<Seq<u8>, SyncError>(hello_bytes(r.certificate)),
        hello_bytes(r.certificate).len() <= 374,
        i.judged(hello_bytes(r.certificate) + signature) == Ok::<(AuthView, Seq<u8>), SyncError>(
            (
                AuthView {
                    certificate: r.certificate,
                    public_key: r.certificate.public_key,
                    device_id: r.certificate.device_id,
                    signature: Some(signature),
                },
                transcript_bytes(shared_transcript(i, info, r)),
            ),
        ),
{
    reveal(InitiatorView::judged);
    hello_round_trip(r.certificate);
    proof_round_trip(r.certificate, signature);
}

/// Two ends that are set up for each other, and to which the Noise handshake
/// has delivered one channel, complete the bilateral authentication whatever
/// the transports were before: the hello, the proof, the signature and the
/// acknowledgement are all accepted. Both sessions then carry the same PairID
/// and binding, name each other's certified identities, and decrypt what the
/// other encrypts.
pub proof fn honest_ends_complete(
    i: InitiatorView,
    r: ResponderView,
    last_message: Seq<u8>,
    initiator_handshake: HandshakeView,
    responder_handshake: HandshakeView,
)
    requires
        aead_sound(),
        set_up(i, r),
        r.handshake is Some,
        0 < last_message.len() <= 96,
        noise_read(r.handshake->Some_0, last_message) == (true, responder_handshake),
        handshake_finished(initiator_handshake) is Ok,
        handshake_finished(responder_handshake) is Ok,
        channel_established(
            i,
            handshake_finished(initiator_handshake)->Ok_0,
            r,
            handshake_finished(responder_handshake)->Ok_0,
        ),
        ({
            let info = handshake_finished(initiator_handshake)->Ok_0.1;
            let transcript = transcript_bytes(shared_transcript(i, info, r));
            signs(i.identity, transcript, ROLE_INITIATOR) && signs(
                r.identity,
                transcript,
                ROLE_RESPONDER,
            )
        }),
    ensures
        ({
            let (first, i1) = i.after_messages(last_message, initiator_handshake);
            let (proof_frame, r1) = r.after_finish(first->Ok_0.0, first->Ok_0.1);
            let (signature_frame, i2) = i1.after_proof(proof_frame->Ok_0);
            let (acknowledged, r2) = r1.after_signature(signature_frame->Ok_0);
            let (completed, i3) = i2.after_ack(acknowledged->Ok_0.0);
            let initiator = completed->Ok_0;
            let responder = acknowledged->Ok_0.1;
            &&& first is Ok
            &&& proof_frame is Ok
            &&& signature_frame is Ok
            &&& acknowledged is Ok
            &&& completed is Ok
            &&& ends_agree(initiator, responder)
            &&& comes_of(initiator, i, r)
            &&& matched(initiator.transport, responder.transport)
            &&& initiator.follows(responder)
            &&& responder.follows(initiator)
        }),
{
    reveal(InitiatorView::after_proof);
    reveal(InitiatorView::after_ack);
    reveal(ResponderView::after_finish);
    reveal(ResponderView::after_signature);
    let (ti, info) = handshake_finished(initiator_handshake)->Ok_0;
    let (tr, other) = handshake_finished(responder_handshake)->Ok_0;
    let transcript = transcript_bytes(shared_transcript(i, info, r));
    let hello = hello_bytes(i.certificate);
    let proof_signature = ed25519_sign(
        r.identity,
        signature_message(transcript, ROLE_RESPONDER),
    );
    let signature = ed25519_sign(i.identity, signature_message(transcript, ROLE_INITIATOR));
    auth_magic_lengths();
    // The hello.
    let ready = ResponderView {
        handshake: None,
        info: Some(other),
        transport: Some(tr),
        ..r
    };
    hello_is_judged(i, info, ready);
    auth_delivered(ti, tr, ROLE_INITIATOR, 1, hello);
    frame_round_trip(
        FrameView {
            kind: KIND_HANDSHAKE,
            role: ROLE_INITIATOR,
            sequence: 0,
            payload: last_message,
        },
        MAX_HANDSHAKE_FRAME as int,
    );
    let (first, i1) = i.after_messages(last_message, initiator_handshake);
    let (hello_frame, ti1) = auth_sealed(ti, ROLE_INITIATOR, 1, hello);
    assert(first is Ok && first->Ok_0.1 == hello_frame->Ok_0 && i1.transport == Some(ti1));
    // The proof.
    let tr1 = auth_opened(tr, hello_frame->Ok_0, ROLE_INITIATOR, 1).1;
    let greeted = ResponderView { transport: Some(tr1), ..ready };
    hello_is_judged(i, info, greeted);
    proof_is_judged(i1, info, r, proof_signature);
    let own_proof = hello_bytes(r.certificate) + proof_signature;
    assert(matched(tr1, ti1));
    auth_delivered(tr1, ti1, ROLE_RESPONDER, 2, own_proof);
    let (proof_frame, r1) = r.after_finish(first->Ok_0.0, first->Ok_0.1);
    let (proof_out, tr2) = auth_sealed(tr1, ROLE_RESPONDER, 2, own_proof);
    assert(r.after_finish(first->Ok_0.0, first->Ok_0.1) == ready.after_hello(
        tr,
        hello_frame->Ok_0,
    ));
    assert(proof_frame == proof_out && r1.transport == Some(tr2)) by {
        reveal(ResponderView::after_hello);
    }
    // The signature.
    let ti2 = auth_opened(ti1, proof_frame->Ok_0, ROLE_RESPONDER, 2).1;
    let proved = InitiatorView { transport: Some(ti2), ..i1 };
    proof_is_judged(proved, info, r, proof_signature);
    auth_delivered(ti2, tr2, ROLE_INITIATOR, 3, signature);
    let (signature_frame, i2) = i1.after_proof(proof_frame->Ok_0);
    let (signature_out, ti3) = auth_sealed(ti2, ROLE_INITIATOR, 3, signature);
    assert(signature_frame == signature_out && i2.transport == Some(ti3));
    // The acknowledgement.
    let tr3 = auth_opened(tr2, signature_frame->Ok_0, ROLE_INITIATOR, 3).1;
    assert(r1.peer is Some && r1.transcript == Some(transcript) && r1.sent_auth && r1.pair_id
        == r.pair_id) by {
        reveal(ResponderView::after_hello);
    }
    assert(r1.peer->Some_0.public_key == i.certificate.public_key) by {
        reveal(ResponderView::after_hello);
    }
    assert(r1.signature_fault(signature) is None);
    auth_delivered(tr3, ti3, ROLE_RESPONDER, 4, utf8(ACK_MAGIC@));
    let (ack_out, tr4) = auth_sealed(tr3, ROLE_RESPONDER, 4, utf8(ACK_MAGIC@));
    let (acknowledged, r2) = r1.after_signature(signature_frame->Ok_0);
    assert(acknowledged == Ok::<(Seq<u8>, SessionView), SyncError>(
        (ack_out->Ok_0, r1.session(i.pair_id, tr4)),
    ));
    // The session.
    assert(i2.peer is Some && i2.transcript == Some(transcript) && i2.pair_id == i.pair_id
        && i2.certificate == i.certificate);
    assert(i2.peer->Some_0.certificate == r.certificate && i2.peer->Some_0.device_id
        == r.certificate.device_id);
    let ti4 = auth_opened(ti3, ack_out->Ok_0, ROLE_RESPONDER, 4).1;
    let (completed, i3) = i2.after_ack(ack_out->Ok_0);
    assert(completed is Ok && completed->Ok_0.transport == ti4);
    assert(r1.certificate == r.certificate && r1.peer->Some_0.certificate == i.certificate
        && r1.peer->Some_0.device_id == i.certificate.device_id) by {
        reveal(ResponderView::after_hello);
    }
}

/// Whether a Noise handshake between two honest ends, with one prologue and the
/// given static and ephemeral secrets, runs to its end: each message is written
/// and accepted in turn, and both ends are left with one channel.
pub open spec fn handshake_delivers(
    prologue: Seq<u8>,
    i_secret: Seq<u8>,
    r_secret: Seq<u8>,
    e1: Seq<u8>,
    e2: Seq<u8>,
    e3: Seq<u8>,
) -> bool {
    let first = handshake_written(noise_start(true, i_secret, prologue), e1);
    let (m1, i1) = first->Some_0;
    let (accepted1, r1) = noise_read(noise_start(false, r_secret, prologue), m1);
    let second = handshake_written(r1, e2);
    let (m2, r2) = second->Some_0;
    let (accepted2, i2) = noise_read(i1, m2);
    let third = handshake_written(i2, e3);
    let (m3, i3) = third->Some_0;
    let (accepted3, r3) = noise_read(r2, m3);
    let initiator = handshake_finished(i3);
    let responder = handshake_finished(r3);
    &&& first is Some
    &&& accepted1
    &&& second is Some
    &&& accepted2
    &&& third is Some
    &&& accepted3
    &&& 0 < m1.len() <= 96
    &&& 0 < m2.len() <= 96
    &&& 0 < m3.len() <= 96
    &&& initiator is Ok
    &&& responder is Ok
    &&& matched(initiator->Ok_0.0, responder->Ok_0.0)
    &&& initiator->Ok_0.0.send_nonce == 0
    &&& initiator->Ok_0.0.receive_nonce == 0
    &&& initiator->Ok_0.1.hash == responder->Ok_0.1.hash
    &&& initiator->Ok_0.1.remote_static == noise_public(r_secret)
    &&& responder->Ok_0.1.remote_static == noise_public(i_secret)
}

/// Every Noise handshake between two honest ends runs to its end, whatever
/// secrets they draw.
pub open spec fn noise_sound() -> bool {
    forall|
        prologue: Seq<u8>,
        i_secret: Seq<u8>,
        r_secret: Seq<u8>,
        e1: Seq<u8>,
        e2: Seq<u8>,
        e3: Seq<u8>,
    |
        i_secret.len() == 32 && r_secret.len() == 32 && e1.len() == 32 && e2.len() == 32
            && e3.len() == 32 ==> #[trigger] handshake_delivers(
            prologue,
            i_secret,
            r_secret,
            e1,
            e2,
            e3,
        )
}

/// The handshake hash and keys that the initiator of an honest handshake is left
/// with.
pub open spec fn initiator_info(
    prologue: Seq<u8>,
    i_secret: Seq<u8>,
    r_secret: Seq<u8>,
    e1: Seq<u8>,
    e2: Seq<u8>,
    e3: Seq<u8>,
) -> InfoView {
    let (m1, i1) = handshake_written(noise_start(true, i_secret, prologue), e1)->Some_0;
    let r1 = noise_read(noise_start(false, r_secret, prologue), m1).1;
    let (m2, r2) = handshake_written(r1, e2)->Some_0;
    let i2 = noise_read(i1, m2).1;
    handshake_finished(handshake_written(i2, e3)->Some_0.1)->Ok_0.1
}

/// Two new ends that are set up for each other complete the whole exchange,
/// from the first frame to the acknowledgement, whatever keys they draw: every
/// frame is accepted by the other end, and the two sessions agree on everything
/// and each read what the other writes.
pub proof fn honest_exchange_completes(
    i: InitiatorView,
    r: ResponderView,
    i_secret: Seq<u8>,
    r_secret: Seq<u8>,
    e1: Seq<u8>,
    e2: Seq<u8>,
    e3: Seq<u8>,
)
    requires
        noise_sound(),
        aead_sound(),
        i_secret.len() == 32,
        r_secret.len() == 32,
        e1.len() == 32,
        e2.len() == 32,
        e3.len() == 32,
        i == InitiatorView::fresh(
            i.identity,
            i.pair_id,
            i.certificate,
            i.expected_peer,
            i.validation,
            i_secret,
        ),
        r == ResponderView::fresh(
            r.identity,
            r.pair_id,
            r.certificate,
            r.expected_peer,
            r.validation,
        ),
        r.pair_id is None || r.pair_id == Some(i.pair_id),
        set_up(i, ResponderView { pair_id: Some(i.pair_id), ..r }),
        ({
            let info = initiator_info(
                prologue(i.validation.mode(), i.pair_id),
                i_secret,
                r_secret,
                e1,
                e2,
                e3,
            );
            let transcript = transcript_bytes(shared_transcript(i, info, r));
            signs(i.identity, transcript, ROLE_INITIATOR) && signs(
                r.identity,
                transcript,
                ROLE_RESPONDER,
            )
        }),
    ensures
        ({
            let (start, i1) = i.started(e1);
            let (answer, r1) = r.after_start(start->Ok_0, r_secret, e2);
            let (finish, i2) = i1.after_handshake(answer->Ok_0, e3);
            let (proof_frame, r2) = r1.after_finish(finish->Ok_0.0, finish->Ok_0.1);
            let (signature_frame, i3) = i2.after_proof(proof_frame->Ok_0);
            let (acknowledged, _) = r2.after_signature(signature_frame->Ok_0);
            let (completed, _) = i3.after_ack(acknowledged->Ok_0.0);
            &&& start is Ok
            &&& answer is Ok
            &&& finish is Ok
            &&& proof_frame is Ok
            &&& signature_frame is Ok
            &&& acknowledged is Ok
            &&& completed is Ok
            &&& ends_agree(completed->Ok_0, acknowledged->Ok_0.1)
            &&& comes_of(completed->Ok_0, i, r)
            &&& matched(completed->Ok_0.transport, acknowledged->Ok_0.1.transport)
            &&& completed->Ok_0.follows(acknowledged->Ok_0.1)
            &&& acknowledged->Ok_0.1.follows(completed->Ok_0)
        }),
{
    let start_of = prologue(i.validation.mode(), i.pair_id);
    assert(handshake_delivers(start_of, i_secret, r_secret, e1, e2, e3));
    let (m1, h1) = handshake_written(noise_start(true, i_secret, start_of), e1)->Some_0;
    let g1 = noise_read(noise_start(false, r_secret, start_of), m1).1;
    let (m2, g2) = handshake_written(g1, e2)->Some_0;
    let h2 = noise_read(h1, m2).1;
    let (m3, h3) = handshake_written(h2, e3)->Some_0;
    let g3 = noise_read(g2, m3).1;
    // The start.
    start_round_trip(
        StartView { mode: i.validation.mode(), pair_id: i.pair_id, message: m1 },
        MAX_HANDSHAKE_FRAME as int,
    );
    let (start, i1) = i.started(e1);
    assert(i1 == (InitiatorView { handshake: Some(h1), ..i }));
    // The responder's handshake message.
    let answered = FrameView {
        kind: KIND_HANDSHAKE,
        role: ROLE_RESPONDER,
        sequence: 0,
        payload: m2,
    };
    frame_round_trip(answered, MAX_HANDSHAKE_FRAME as int);
    let (answer, r1) = r.after_start(start->Ok_0, r_secret, e2);
    assert(answer is Ok && answer->Ok_0 == crate::frames::frame_bytes(answered) && r1 == (
    ResponderView {
        pair_id: Some(i.pair_id),
        local_static: noise_public(r_secret),
        handshake: Some(g2),
        ..r
    })) by {
        reveal(ResponderView::after_start);
    }
    assert(i1.after_handshake(answer->Ok_0, e3) == i1.after_messages(m3, h3)) by {
        reveal(InitiatorView::after_handshake);
    }
    let info = handshake_finished(h3)->Ok_0.1;
    assert(shared_transcript(i1, info, r1) =~= shared_transcript(i, info, r));
    honest_ends_complete(i1, r1, m3, h3, g3);
}

/// An end never takes its own frames for the peer's: whatever it encrypts, it
/// refuses when it is sent back, then and later.
pub proof fn own_frames_refused(s: SessionView, plaintext: Seq<u8>, later: SessionView)
    requires
        s.encrypted(plaintext).0 is Ok,
        later.local_role == s.local_role,
    ensures
        later.decrypted(s.encrypted(plaintext).0->Ok_0).0 is Err,
{
    let frame = s.encrypted(plaintext).0->Ok_0;
    if frame_parsed(frame, MAX_TRANSPORT_FRAME as int) is Ok {
        let f = FrameView {
            kind: KIND_TRANSPORT,
            role: s.local_role,
            sequence: 0,
            payload: noise_seal(s.transport.send_key, s.transport.send_nonce, plaintext),
        };
        frame_keeps_role(f, MAX_TRANSPORT_FRAME as int);
    }
}

/// A responder answers an initiator's start only where both mean the same kind
/// of pairing, and a responder that already has a PairID only under that PairID:
/// first contact never meets a reconnection, and two pairings never cross.
pub proof fn only_like_pairings_connect(
    i: InitiatorView,
    r: ResponderView,
    ephemeral: Seq<u8>,
    secret: Seq<u8>,
    drawn: Seq<u8>,
)
    requires
        i.started(ephemeral).0 is Ok,
        r.after_start(i.started(ephemeral).0->Ok_0, secret, drawn).0 is Ok,
    ensures
        r.validation.mode() == i.validation.mode(),
        r.pair_id is None || r.pair_id == Some(i.pair_id),
        r.after_start(i.started(ephemeral).0->Ok_0, secret, drawn).1.pair_id == Some(i.pair_id),
{
    reveal(ResponderView::after_start);
    let message = handshake_written(i.handshake->Some_0, ephemeral)->Some_0.0;
    start_round_trip(
        StartView { mode: i.validation.mode(), pair_id: i.pair_id, message },
        MAX_HANDSHAKE_FRAME as int,
    );
}

/// What is written in a session is what the peer's session reads, whatever its
/// content up to the limit; and the next message can follow.
pub proof fn peer_reads_what_was_written(a: SessionView, b: SessionView, plaintext: Seq<u8>)
    requires
        aead_sound(),
        is_role(a.local_role),
        b.follows(a),
        plaintext.len() <= MAX_TRANSPORT_PLAINTEXT,
        a.transport.send_nonce < u64::MAX,
    ensures
        ({
            let (frame, sent) = a.encrypted(plaintext);
            let (received, read) = b.decrypted(frame->Ok_0);
            &&& frame is Ok
            &&& frame->Ok_0.len() == plaintext.len() + 37
            &&& received == Ok::<Seq<u8>, SyncError>(plaintext)
            &&& read.follows(sent)
        }),
{
    let ciphertext = noise_seal(a.transport.send_key, a.transport.send_nonce, plaintext);
    frame_round_trip(
        FrameView {
            kind: KIND_TRANSPORT,
            role: a.local_role,
            sequence: 0,
            payload: ciphertext,
        },
        MAX_TRANSPORT_FRAME as int,
    );
    frame_magic_length();
    be_bytes_len(ciphertext.len(), 2);
}

// ---------------------------------------------------------------------------
// Agreement.
// ---------------------------------------------------------------------------
/// Whether the pins of a validation, if it has any, belong together.
pub open spec fn consistent(validation: ValidationView) -> bool {
    validation matches ValidationView::Paired(context) ==> context.consistent()
}

/// An authenticated initiator and an authenticated responder agree on
/// everything, whatever the channel between them: it is enough that the key
/// under which the initiator verified its peer accepts only the signature that
/// the responder made on its own transcript.
pub proof fn authenticated_ends_agree(
    initiator: SessionView,
    responder: SessionView,
    i_validation: ValidationView,
    r_validation: ValidationView,
    i_expected: Seq<char>,
    r_expected: Seq<char>,
    i_transcript: TranscriptView,
    r_transcript: TranscriptView,
    i_signature: Seq<u8>,
    r_signature: Seq<u8>,
    made: Seq<u8>,
)
    requires
        initiator.local_role == ROLE_INITIATOR,
        responder.local_role == ROLE_RESPONDER,
        initiator.authenticated_by(i_validation, i_expected, i_transcript, i_signature),
        responder.authenticated_by(r_validation, r_expected, r_transcript, r_signature),
        consistent(i_validation),
        consistent(r_validation),
        i_transcript.well_formed(),
        r_transcript.well_formed(),
        accepts_only(
            initiator.peer_public_key,
            signature_message(transcript_bytes(r_transcript), ROLE_RESPONDER),
            made,
            signature_message(transcript_bytes(i_transcript), ROLE_RESPONDER),
            i_signature,
        ),
    ensures
        i_transcript == r_transcript,
        ends_agree(initiator, responder),
{
    signature_binds(
        transcript_bytes(i_transcript),
        ROLE_RESPONDER,
        transcript_bytes(r_transcript),
        ROLE_RESPONDER,
    );
    transcript_binds(i_transcript, r_transcript);
}

// ---------------------------------------------------------------------------
// Refusals.
// ---------------------------------------------------------------------------
/// Whether a responder that has finished its handshake refuses a hello: the
/// frame is too long, it does not open as the first authentication frame of
/// this channel, or it does not introduce the expected peer.
pub open spec fn refuses_hello(r: ResponderView, transport: TransportView, hello: Seq<u8>) -> bool {
    let (payload, after) = auth_opened(transport, hello, ROLE_INITIATOR, 1);
    ||| hello.len() > MAX_AUTH_FRAME
    ||| payload is Err
    ||| (r.validation.peer(payload->Ok_0, ROLE_INITIATOR, false) matches Ok(peer)
        && peer.device_id != r.expected_peer)
    ||| (ResponderView { transport: Some(after), ..r }).judged(payload->Ok_0) is Err
}

/// A responder that refuses a hello exposes no session: the refused step is an
/// error, and from then on, until an exchange is started anew, every signature
/// and every further hello is refused and changes nothing.
pub proof fn refused_hello_exposes_no_session(
    r: ResponderView,
    last: FrameView,
    handshake_frame: Seq<u8>,
    hello: Seq<u8>,
    signature: Seq<u8>,
    again: Seq<u8>,
    other: Seq<u8>,
)
    requires
        !r.sent_auth,
        plain_frame_parsed(handshake_frame, MAX_HANDSHAKE_FRAME as int) == Ok::<
            FrameView,
            SyncError,
        >(last),
        last.kind == KIND_HANDSHAKE,
        last.role == ROLE_INITIATOR,
        r.handshake matches Some(h) && noise_read(h, last.payload).0 && (handshake_finished(
            noise_read(h, last.payload).1,
        ) matches Ok((transport, info)) && refuses_hello(
            ResponderView {
                handshake: None,
                info: Some(info),
                transport: Some(transport),
                ..r
            },
            transport,
            hello,
        )),
    ensures
        ({
            let (result, refused) = r.after_finish(handshake_frame, hello);
            &&& result is Err
            &&& refused.after_signature(signature) == (
                Err::<(Seq<u8>, SessionView), SyncError>(SyncError::ProofNotSent),
                refused,
            )
            &&& refused.after_finish(again, other).0 is Err
            &&& refused.after_finish(again, other).1 == refused
        }),
{
    reveal(ResponderView::after_finish);
    reveal(ResponderView::after_hello);
    reveal(ResponderView::after_signature);
    reveal(ResponderView::judged);
    reveal(auth_opened);
}

/// Whether an initiator refuses a proof: the frame is too long, it does not
/// open as the second authentication frame of this channel, or it does not
/// prove the expected peer.
pub open spec fn refuses_proof(i: InitiatorView, frame: Seq<u8>) -> bool {
    i.transport matches Some(transport) ==> {
        let (payload, after) = auth_opened(transport, frame, ROLE_RESPONDER, 2);
        ||| frame.len() > MAX_AUTH_FRAME
        ||| payload is Err
        ||| (i.validation.peer(payload->Ok_0, ROLE_RESPONDER, true) matches Ok(peer)
            && peer.device_id != i.expected_peer)
        ||| (InitiatorView { transport: Some(after), ..i }).judged(payload->Ok_0) is Err
    }
}

/// An initiator after a series of frames that were each taken for the
/// acknowledgement.
pub open spec fn after_acks(i: InitiatorView, frames: Seq<Seq<u8>>) -> InitiatorView
    decreases frames.len(),
{
    if frames.len() == 0 {
        i
    } else {
        after_acks(i, frames.drop_last()).after_ack(frames.last()).1
    }
}

/// An initiator to which no peer has proved itself exposes no session, however
/// many acknowledgements it is given.
pub proof fn unproven_exposes_no_session(i: InitiatorView, frames: Seq<Seq<u8>>, ack: Seq<u8>)
    requires
        i.peer is None,
    ensures
        after_acks(i, frames).peer is None,
        after_acks(i, frames).after_ack(ack).0 is Err,
    decreases frames.len(),
{
    reveal(InitiatorView::after_ack);
    if frames.len() > 0 {
        unproven_exposes_no_session(i, frames.drop_last(), ack);
    }
}

/// An initiator that refuses a proof exposes no session: the refused step is an
/// error, no peer is remembered, and every acknowledgement that follows is
/// refused.
pub proof fn refused_proof_exposes_no_session(
    i: InitiatorView,
    frame: Seq<u8>,
    frames: Seq<Seq<u8>>,
    ack: Seq<u8>,
)
    requires
        i.peer is None,
        refuses_proof(i, frame),
    ensures
        i.after_proof(frame).0 is Err,
        i.after_proof(frame).1.peer is None,
        after_acks(i.after_proof(frame).1, frames).after_ack(ack).0 is Err,
{
    reveal(InitiatorView::after_proof);
    reveal(InitiatorView::judged);
    reveal(auth_opened);
    unproven_exposes_no_session(i.after_proof(frame).1, frames, ack);
}

} // verus!
