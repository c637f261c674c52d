//! What each step of an exchange takes, and what follows from it.
use crate::codec::utf8;
use crate::crypto::{ed25519_sign, sha256};
use crate::error::SyncError;
use crate::frames::{plain_frame_parsed, start_parsed};
use crate::judgement::mode_number;
use crate::noise::{handshake_written, noise_public, noise_read, noise_start};
use crate::pairing::{auth_opened, auth_sealed, prologue, InitiatorView, ResponderView};
use crate::pairing_run::{
    message_opened, ActionView, EventView, InitiatorRunView, InitiatorStageView, ResponderRunView,
    ResponderStageView,
};
use crate::trust::StoreView;
use vstd::prelude::*;

verus! {

// ---------------------------------------------------------------------------
// Authentication.
// ---------------------------------------------------------------------------
/// An initiator completes its session exactly on the acknowledgement, the fourth
/// authentication frame, from the responder that has proved itself. The session
/// is between the two certificates, bound to the transcript that they share, and
/// the initiator's part is over.
pub proof fn acknowledgements_open_sessions(i: InitiatorView, frame: Seq<u8>)
    ensures
        ({
            let (result, after) = i.after_ack(frame);
            &&& result is Ok <==> {
                &&& i.transport is Some
                &&& auth_opened(i.transport->Some_0, frame, 2, 4).0 == Ok::<Seq<u8>, SyncError>(
                    utf8("OMARCHY-AUTH-ACK-V3"@),
                )
                &&& i.peer is Some
                &&& i.transcript is Some
            }
            &&& result matches Ok(s) ==> {
                let peer = i.peer->Some_0;
                &&& s.local_role == 1
                &&& s.pair_id == i.pair_id
                &&& s.local_certificate == i.certificate
                &&& s.local_device_id == i.certificate.device_id
                &&& s.peer_certificate == peer.certificate
                &&& s.peer_device_id == peer.device_id
                &&& s.peer_public_key == peer.public_key
                &&& s.session_binding == sha256(i.transcript->Some_0)
                &&& s.transport == auth_opened(i.transport->Some_0, frame, 2, 4).1
                &&& after.peer is None
                &&& after.transport is None
            }
        }),
{
    reveal(InitiatorView::after_ack);
}

/// A responder completes its session exactly on the initiator's signature, the
/// third authentication frame, where it has sent its own proof, the signature is
/// that of the device that introduced itself, and the acknowledgement can be
/// sent, which is the fourth. The session is between the two certificates, bound
/// to the transcript that they share.
pub proof fn signatures_open_sessions(r: ResponderView, frame: Seq<u8>)
    ensures
        ({
            let (result, after) = r.after_signature(frame);
            let (payload, read) = auth_opened(r.transport->Some_0, frame, 1, 3);
            let (ack, sent) = auth_sealed(read, 2, 4, utf8("OMARCHY-AUTH-ACK-V3"@));
            &&& result is Ok <==> {
                &&& r.sent_auth
                &&& r.transport is Some
                &&& payload is Ok
                &&& r.signature_fault(payload->Ok_0) is None
                &&& ack is Ok
                &&& r.pair_id is Some
            }
            &&& result matches Ok((reply, s)) ==> {
                let peer = r.peer->Some_0;
                &&& reply == ack->Ok_0
                &&& s.local_role == 2
                &&& Some(s.pair_id) == r.pair_id
                &&& s.local_certificate == r.certificate
                &&& s.local_device_id == r.certificate.device_id
                &&& s.peer_certificate == peer.certificate
                &&& s.peer_device_id == peer.device_id
                &&& s.peer_public_key == peer.public_key
                &&& s.session_binding == sha256(r.transcript->Some_0)
                &&& s.transport == sent
                &&& after.transport is None
            }
        }),
{
    reveal(ResponderView::after_signature);
}

/// An initiator answers a proof, the second authentication frame, exactly where
/// it has sent its hello, the proof is accepted, and the answer can be sent: its
/// own signature, as initiator, of the transcript that the two share, in the
/// third. It then knows the peer and the transcript.
pub proof fn proofs_are_answered(i: InitiatorView, frame: Seq<u8>)
    ensures
        ({
            let (result, after) = i.after_proof(frame);
            let (payload, read) = auth_opened(i.transport->Some_0, frame, 2, 2);
            let judged = (InitiatorView { transport: Some(read), ..i }).judged(payload->Ok_0);
            let (peer, transcript) = judged->Ok_0;
            let own = ed25519_sign(
                i.identity,
                utf8("OMARCHY-SYNC-V3-PAIRING-SIGNATURE"@) + transcript + seq![1u8],
            );
            let (reply, _) = auth_sealed(read, 1, 3, own);
            &&& result is Ok <==> {
                &&& i.sent_auth
                &&& i.transport is Some
                &&& payload is Ok
                &&& judged is Ok
                &&& reply is Ok
            }
            &&& result is Ok ==> {
                &&& result == reply
                &&& after.peer == Some(peer)
                &&& after.transcript == Some(transcript)
            }
            &&& judged is Err && i.transport is Some ==> after.peer == i.peer
        }),
{
    reveal(InitiatorView::after_proof);
}

/// A responder answers a start exactly where the initiator means the same kind of
/// pairing, under the PairID of the pins if there are any, its handshake message
/// is read under the prologue of that mode and PairID, and the answer can be
/// written and fits. It goes on under the initiator's PairID, with the fresh key.
pub proof fn starts_are_answered(
    r: ResponderView,
    frame: Seq<u8>,
    secret: Seq<u8>,
    ephemeral: Seq<u8>,
)
    ensures
        ({
            let (result, after) = r.after_start(frame, secret, ephemeral);
            let start = start_parsed(frame, 2048)->Ok_0;
            let (accepted, read) = noise_read(
                noise_start(
                    false,
                    secret,
                    utf8("OMARCHY-SYNC-V3-PAIRING-TRANSCRIPT"@) + seq![start.mode] + utf8(
                        start.pair_id,
                    ),
                ),
                start.message,
            );
            let written = handshake_written(read, ephemeral);
            &&& result is Ok <==> {
                &&& start_parsed(frame, 2048) is Ok
                &&& start.mode == mode_number(r.validation)
                &&& r.pair_id matches Some(pinned) ==> pinned == start.pair_id
                &&& accepted
                &&& written is Some
                &&& written->Some_0.0.len() + 21 <= 2048
            }
            &&& result is Ok ==> {
                &&& after.pair_id == Some(start.pair_id)
                &&& after.local_static == noise_public(secret)
                &&& after.handshake == Some(written->Some_0.1)
                &&& after.peer == r.peer
            }
        }),
{
    reveal(ResponderView::after_start);
}

/// A responder takes the initiator's last handshake message and its hello only
/// where the handshake is finished by the one and the other, the first
/// authentication frame, introduces an accepted peer. It then remembers that
/// peer, and answers with its own certificate and its signature, as responder, of
/// the transcript that the two share, in the second.
pub proof fn hellos_are_answered(r: ResponderView, handshake: Seq<u8>, hello: Seq<u8>)
    requires
        r.after_finish(handshake, hello).0 is Ok,
    ensures
        ({
            let after = r.after_finish(handshake, hello).1;
            let f = plain_frame_parsed(handshake, 2048)->Ok_0;
            &&& plain_frame_parsed(handshake, 2048) is Ok
            &&& f.kind == 1
            &&& f.role == 1
            &&& r.handshake matches Some(h) && noise_read(h, f.payload).0 && noise_read(
                h,
                f.payload,
            ).1.position == 3
            &&& after.handshake is None
            &&& after.sent_auth
            &&& after.info matches Some(info) && info.hash.len() == 32 && info.remote_static.len()
                == 32
            &&& after.peer is Some
            &&& after.transcript is Some
            &&& after.pair_id == r.pair_id
            &&& after.validation == r.validation
        }),
{
    reveal(ResponderView::after_finish);
    reveal(ResponderView::after_hello);
}

/// The prologue of a handshake is the same for both ends exactly if they mean the
/// same mode and PairID.
pub proof fn prologues_agree(mode: u8, pair_id: Seq<char>, other_mode: u8, other_id: Seq<char>)
    requires
        prologue(mode, pair_id) == prologue(other_mode, other_id),
    ensures
        mode == other_mode,
        pair_id == other_id,
{
    let magic = utf8("OMARCHY-SYNC-V3-PAIRING-TRANSCRIPT"@);
    let a = prologue(mode, pair_id);
    let b = prologue(other_mode, other_id);
    assert(a[magic.len() as int] == mode && b[magic.len() as int] == other_mode);
    assert(a.skip(magic.len() as int + 1) =~= utf8(pair_id));
    assert(b.skip(magic.len() as int + 1) =~= utf8(other_id));
    crate::codec::utf8_injective(pair_id, other_id);
}

// ---------------------------------------------------------------------------
// Runs.
// ---------------------------------------------------------------------------
/// Whether an initiating run waits for a frame.
pub open spec fn initiator_reads(stage: InitiatorStageView) -> bool {
    match stage {
        InitiatorStageView::ResponseRead(_) => false,
        InitiatorStageView::FinalizedRead(_, _) => false,
        InitiatorStageView::Done => false,
        _ => true,
    }
}

/// An initiating run takes a frame or a message exactly when it waits for one, and
/// never a decision; anything else is refused and changes nothing. Until the
/// answer is read, frames leave the store alone; a message that is read from a
/// frame is handed over to be parsed.
pub proof fn initiators_take_what_they_wait_for(
    run: InitiatorRunView,
    event: EventView,
    store: StoreView,
    ephemeral: Seq<u8>,
)
    ensures
        ({
            let (result, after) = run.stepped(event, store, ephemeral);
            let refused = (
                Err::<(InitiatorRunView, ActionView), SyncError>(SyncError::EventUnexpected),
                store,
            );
            &&& event is Decision ==> (result, after) == refused
            &&& event is Frame && !initiator_reads(run.stage) ==> (result, after) == refused
            &&& event is Message && (initiator_reads(run.stage) || run.stage is Done) ==> (
                result,
                after,
            ) == refused
            &&& event is Frame ==> after == store
            &&& run.stage is Response && event is Frame ==> {
                let (opened, read) = message_opened(run.stage->Response_0, event->Frame_0);
                &&& result is Ok <==> opened is Ok
                &&& opened matches Ok(encoded) ==> result == Ok::<
                    (InitiatorRunView, ActionView),
                    SyncError,
                >(
                    (
                        InitiatorRunView { stage: InitiatorStageView::ResponseRead(read), ..run },
                        ActionView::Parse(encoded),
                    ),
                )
            }
        }),
{
    reveal(InitiatorRunView::stepped);
}

/// Whether a responding run waits for a frame.
pub open spec fn responder_reads(stage: ResponderStageView) -> bool {
    match stage {
        ResponderStageView::RequestRead(_) => false,
        ResponderStageView::Decision(_) => false,
        ResponderStageView::CompleteRead(_) => false,
        ResponderStageView::Done => false,
        _ => true,
    }
}

/// A responding run takes a frame, a message or a decision exactly when it waits
/// for one; anything else is refused and changes nothing. Frames leave the store
/// alone; a message that is read from a frame is handed over to be parsed.
pub proof fn responders_take_what_they_wait_for(
    run: ResponderRunView,
    event: EventView,
    store: StoreView,
)
    ensures
        ({
            let (result, after) = run.stepped(event, store);
            let refused = (
                Err::<(ResponderRunView, ActionView), SyncError>(SyncError::EventUnexpected),
                store,
            );
            &&& event is Decision && run.stage !is Decision ==> (result, after) == refused
            &&& event is Frame && !responder_reads(run.stage) ==> (result, after) == refused
            &&& (event is Message && run.stage !is RequestRead && run.stage !is CompleteRead) ==> (
                result,
                after,
            ) == refused
            &&& event is Frame ==> after == store
            &&& run.stage is Handshake && event is Frame ==> result == Ok::<
                (ResponderRunView, ActionView),
                SyncError,
            >(
                (
                    ResponderRunView {
                        stage: ResponderStageView::Hello(
                            run.stage->Handshake_0,
                            event->Frame_0,
                        ),
                        ..run
                    },
                    ActionView::Exchange(Seq::empty()),
                ),
            )
            &&& run.stage is Request && event is Frame ==> {
                let (opened, read) = message_opened(run.stage->Request_0, event->Frame_0);
                &&& result is Ok <==> opened is Ok
                &&& opened matches Ok(encoded) ==> result == Ok::<
                    (ResponderRunView, ActionView),
                    SyncError,
                >(
                    (
                        ResponderRunView { stage: ResponderStageView::RequestRead(read), ..run },
                        ActionView::Parse(encoded),
                    ),
                )
            }
            &&& run.stage is Complete && event is Frame ==> {
                let (opened, read) = message_opened(run.stage->Complete_0, event->Frame_0);
                &&& result is Ok <==> opened is Ok
                &&& opened matches Ok(encoded) ==> result == Ok::<
                    (ResponderRunView, ActionView),
                    SyncError,
                >(
                    (
                        ResponderRunView { stage: ResponderStageView::CompleteRead(read), ..run },
                        ActionView::Parse(encoded),
                    ),
                )
            }
        }),
{
    reveal(ResponderRunView::stepped);
}

} // verus!
