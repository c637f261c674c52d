//! Bilateral pairing records and local authorization.
//!
//! A certificate or discovery announcement only says that a key belongs to an
//! Omarchy installation. It never writes trust. Trust is created here, and
//! only after an authenticated session has produced one canonical record, the
//! locally prompted user has approved the certified peer, and both device
//! identities have signed that exact record.
//!
//! The store works on what was found in its three directories and keeps a
//! journal of the changes to make there, in order.
use crate::authentication::{ContextView, PairedIdentityContext};
use crate::capability::ActivePairingLookup;
use crate::codec::{append, text_from_utf8, utf8};
use crate::crypto::{ed25519_public, ed25519_sign};
use crate::error::{checked, outcome, SyncError};
use crate::frames::{ROLE_INITIATOR, ROLE_RESPONDER};
use crate::identity::{device_id_of, DeviceIdentity};
use crate::pairing::{AuthenticatedPairingSession, SessionView};
use crate::protocol_v3::{CertificateView, DeviceCertificate, PinnedOmarchyRoot, RootView};
pub use crate::record::{pairing_domain, record_fingerprint, PairingRecord};
use crate::record::{
    binding_error, check_marker, checked_pair_id, is_marker, local_role, pending_error,
    record_certificates, record_from_session, record_json, record_message, record_sign_error,
    session_encode_error, session_identity_error, session_record, session_record_error, storable,
    stored_error, validate_device_id, validate_session_identity, Demands, RecordView,
};
use crate::text::{bytes_eq, is_id, str_eq};
use vstd::prelude::*;
use vstd::utf8::*;

verus! {

// ---------------------------------------------------------------------------
// Local authorization.
// ---------------------------------------------------------------------------
/// A marker proving that a local user-presence check approved this peer.
/// `user_presence` is deliberately opaque to this library: polkit, PAM,
/// fingerprint, or another local broker may choose its value.
#[derive(Debug, PartialEq, Eq)]
pub struct AuthorizationGrant {
    pub user_presence: String,
}

impl View for AuthorizationGrant {
    type V = Seq<char>;

    open spec fn view(&self) -> Seq<char> {
        self.user_presence@
    }
}

impl Clone for AuthorizationGrant {
    fn clone(&self) -> (result: Self)
        ensures
            result@ == self@,
    {
        AuthorizationGrant { user_presence: self.user_presence.clone() }
    }
}

/// Local policy boundary. The session has already authenticated the peer; the
/// broker decides whether the certified name and DeviceID may be paired.
pub trait AuthorizationBroker {
    fn authorize(&self, peer: &DeviceCertificate) -> Result<AuthorizationGrant, SyncError>;
}

// ---------------------------------------------------------------------------
// What the store's directories hold.
// ---------------------------------------------------------------------------
/// What was found under a name.
pub enum EntryContent {
    /// Nothing that exists, as behind a dangling link.
    Absent,
    /// Something that does not read as a record.
    Unreadable(SyncError),
    /// A record of valid form.
    Record(PairingRecord),
}

/// One name in a directory, and what was found under it.
pub struct Entry {
    pub name: Vec<u8>,
    pub content: EntryContent,
}

/// What was found under a name.
pub enum ContentView {
    Absent,
    Unreadable(SyncError),
    Record(RecordView),
}

/// One name in a directory, and what was found under it.
pub struct EntryView {
    pub name: Seq<u8>,
    pub content: ContentView,
}

impl View for EntryContent {
    type V = ContentView;

    open spec fn view(&self) -> ContentView {
        match self {
            EntryContent::Absent => ContentView::Absent,
            EntryContent::Unreadable(error) => ContentView::Unreadable(*error),
            EntryContent::Record(record) => ContentView::Record(record@),
        }
    }
}

impl View for Entry {
    type V = EntryView;

    open spec fn view(&self) -> EntryView {
        EntryView { name: self.name@, content: self.content@ }
    }
}

/// The entries of a directory.
pub open spec fn entries_view(entries: Seq<Entry>) -> Seq<EntryView> {
    entries.map_values(|entry: Entry| entry@)
}

/// The name under which a record is kept.
pub open spec fn record_name(pair_id: Seq<char>) -> Seq<u8> {
    utf8(pair_id) + utf8(".json"@)
}

/// What is found under a name: the first entry of that name that exists.
pub open spec fn lookup(entries: Seq<EntryView>, name: Seq<u8>) -> Option<
    Result<RecordView, SyncError>,
>
    decreases entries.len(),
{
    if entries.len() == 0 {
        None
    } else if entries[0].name == name && entries[0].content !is Absent {
        match entries[0].content {
            ContentView::Unreadable(error) => Some(Err(error)),
            ContentView::Record(record) => Some(Ok(record)),
            ContentView::Absent => None,
        }
    } else {
        lookup(entries.drop_first(), name)
    }
}

/// The entries without those of a name.
pub open spec fn without(entries: Seq<EntryView>, name: Seq<u8>) -> Seq<EntryView>
    decreases entries.len(),
{
    if entries.len() == 0 {
        Seq::empty()
    } else {
        let rest = without(entries.drop_last(), name);
        if entries.last().name == name {
            rest
        } else {
            rest.push(entries.last())
        }
    }
}

/// The entries after a record is written under a name.
pub open spec fn written(entries: Seq<EntryView>, name: Seq<u8>, record: RecordView) -> Seq<
    EntryView,
> {
    without(entries, name).push(EntryView { name, content: ContentView::Record(record) })
}

/// The part of a file name before its extension: everything up to the last dot,
/// or the whole name where that dot is missing or comes first.
pub open spec fn file_stem(name: Seq<u8>) -> Seq<u8> {
    let dot = last_dot(name);
    if dot <= 0 {
        name
    } else {
        name.take(dot)
    }
}

/// Where the last dot of a name is, or minus one.
pub open spec fn last_dot(name: Seq<u8>) -> int
    decreases name.len(),
{
    if name.len() == 0 {
        -1
    } else if name.last() == 0x2e {
        name.len() - 1
    } else {
        last_dot(name.drop_last())
    }
}

/// One change to make to the directories, by the name of a file.
pub enum Change {
    /// Write bytes under a name that is not in use among the pending records.
    WritePending(Vec<u8>, Vec<u8>),
    /// Write bytes under a name that is not in use among the active records.
    WriteActive(Vec<u8>, Vec<u8>),
    /// Remove a pending record.
    RemovePending(Vec<u8>),
    /// Move an active record to the revoked ones.
    Revoke(Vec<u8>),
}

/// One change to make to the directories, by the name of a file.
pub enum ChangeView {
    WritePending(Seq<u8>, Seq<u8>),
    WriteActive(Seq<u8>, Seq<u8>),
    RemovePending(Seq<u8>),
    Revoke(Seq<u8>),
}

impl View for Change {
    type V = ChangeView;

    open spec fn view(&self) -> ChangeView {
        match self {
            Change::WritePending(name, bytes) => ChangeView::WritePending(name@, bytes@),
            Change::WriteActive(name, bytes) => ChangeView::WriteActive(name@, bytes@),
            Change::RemovePending(name) => ChangeView::RemovePending(name@),
            Change::Revoke(name) => ChangeView::Revoke(name@),
        }
    }
}

/// The outcome of an operation that may find nothing.
pub open spec fn found<T: View>(result: Result<Option<T>, SyncError>) -> Result<
    Option<T::V>,
    SyncError,
> {
    match result {
        Ok(Some(value)) => Ok(Some(value@)),
        Ok(None) => Ok(None),
        Err(error) => Err(error),
    }
}

// ---------------------------------------------------------------------------
// What the store does.
// ---------------------------------------------------------------------------
/// The state of a store.
pub struct StoreView {
    pub active: Seq<EntryView>,
    pub pending: Seq<EntryView>,
    pub revoked: Seq<Seq<u8>>,
    pub root: RootView,
    pub now: u64,
    pub journal: Seq<ChangeView>,
}

/// What remains of the pending entries when those of a pair of devices are
/// swept out, which ones go, and the fault that ends the sweep early.
pub open spec fn swept(entries: Seq<EntryView>, record: RecordView) -> (
    Option<SyncError>,
    Seq<EntryView>,
    Seq<ChangeView>,
)
    decreases entries.len(),
{
    if entries.len() == 0 {
        (None, Seq::empty(), Seq::empty())
    } else {
        let (fault, kept, removed) = swept(entries.drop_last(), record);
        let last = entries.last();
        if fault is Some {
            (fault, kept.push(last), removed)
        } else {
            match last.content {
                ContentView::Absent => (None, kept.push(last), removed),
                ContentView::Unreadable(error) => (Some(error), kept.push(last), removed),
                ContentView::Record(pending) => if pending.binds(
                    record.initiator_device_id,
                    record.responder_device_id,
                ) {
                    (None, kept, removed.push(ChangeView::RemovePending(last.name)))
                } else {
                    (None, kept.push(last), removed)
                },
            }
        }
    }
}

/// The first pending record that binds two devices. A fault before it ends the
/// search.
pub open spec fn first_pending(
    entries: Seq<EntryView>,
    root: RootView,
    local: Seq<char>,
    peer: Seq<char>,
) -> Result<Option<RecordView>, SyncError>
    decreases entries.len(),
{
    if entries.len() == 0 {
        Ok(None)
    } else {
        let rest = first_pending(entries.drop_first(), root, local, peer);
        match entries[0].content {
            ContentView::Absent => rest,
            ContentView::Unreadable(error) => Err(error),
            ContentView::Record(record) => match pending_error(record, root) {
                Some(error) => Err(error),
                None => if record.binds(local, peer) {
                    Ok(Some(record))
                } else {
                    rest
                },
            },
        }
    }
}

/// Whether an active record binds two devices. A fault before it ends the
/// search.
pub open spec fn any_active(
    entries: Seq<EntryView>,
    root: RootView,
    local: Seq<char>,
    peer: Seq<char>,
) -> Result<bool, SyncError>
    decreases entries.len(),
{
    if entries.len() == 0 {
        Ok(false)
    } else {
        let rest = any_active(entries.drop_first(), root, local, peer);
        match entries[0].content {
            ContentView::Absent => rest,
            ContentView::Unreadable(error) => Err(error),
            ContentView::Record(record) => match stored_error(record, root) {
                Some(error) => Err(error),
                None => if record.binds(local, peer) {
                    Ok(true)
                } else {
                    rest
                },
            },
        }
    }
}

/// The pins of a record whose certificates are given.
pub open spec fn record_context(
    r: RecordView,
    initiator: CertificateView,
    responder: CertificateView,
) -> Result<ContextView, SyncError> {
    let c = ContextView {
        pair_id: r.pair_id,
        initiator_device_id: r.initiator_device_id,
        responder_device_id: r.responder_device_id,
        initiator_public_key: r.initiator_public_key,
        responder_public_key: r.responder_public_key,
        initiator_certificate: initiator,
        responder_certificate: responder,
    };
    if c.consistent() {
        Ok(c)
    } else {
        Err(SyncError::PairedContextMismatch)
    }
}

/// The pins of a record for one of its participants.
pub open spec fn participant_context(r: RecordView, root: RootView, secret: Seq<u8>) -> Result<
    ContextView,
    SyncError,
> {
    let id = device_id_of(ed25519_public(secret));
    match pending_error(r, root) {
        Some(error) => Err(error),
        None => match record_certificates(r) {
            Err(error) => Err(error),
            Ok((initiator, responder)) => if id != r.initiator_device_id && id
                != r.responder_device_id {
                Err(SyncError::NotPendingParticipant)
            } else {
                record_context(r, initiator, responder)
            },
        },
    }
}

impl StoreView {
    /// Loads an active record.
    pub open spec fn loaded(self, pair_id: Seq<char>) -> Result<Option<RecordView>, SyncError> {
        if !is_id(pair_id) {
            Err(SyncError::InvalidPairingId)
        } else {
            match lookup(self.active, record_name(pair_id)) {
                None => Ok(None),
                Some(Err(error)) => Err(error),
                Some(Ok(record)) => if record.pair_id != pair_id {
                    Err(SyncError::RecordFilename)
                } else {
                    match stored_error(record, self.root) {
                        Some(error) => Err(error),
                        None => Ok(Some(record)),
                    }
                },
            }
        }
    }

    /// Loads a pending record.
    pub open spec fn loaded_pending(self, pair_id: Seq<char>) -> Result<
        Option<RecordView>,
        SyncError,
    > {
        if !is_id(pair_id) {
            Err(SyncError::InvalidPairingId)
        } else {
            match lookup(self.pending, record_name(pair_id)) {
                None => Ok(None),
                Some(Err(error)) => Err(error),
                Some(Ok(record)) => Ok(Some(record)),
            }
        }
    }

    /// The pending record of two devices.
    pub open spec fn pending_between(self, local: Seq<char>, peer: Seq<char>) -> Result<
        Option<RecordView>,
        SyncError,
    > {
        if !is_id(local) || !is_id(peer) {
            Err(SyncError::InvalidDeviceId)
        } else {
            first_pending(self.pending, self.root, local, peer)
        }
    }

    /// Whether two devices have an active pairing.
    pub open spec fn active_between(self, local: Seq<char>, peer: Seq<char>) -> Result<
        bool,
        SyncError,
    > {
        if !is_id(local) || !is_id(peer) {
            Err(SyncError::InvalidDeviceId)
        } else {
            any_active(self.active, self.root, local, peer)
        }
    }

    /// The pins of an active pairing.
    pub open spec fn reconnecting(self, secret: Seq<u8>, pair_id: Seq<char>) -> Result<
        ContextView,
        SyncError,
    > {
        let key = ed25519_public(secret);
        let id = device_id_of(key);
        match self.loaded(pair_id) {
            Err(error) => Err(error),
            Ok(None) => Err(SyncError::ActiveMissing),
            Ok(Some(record)) => match record_certificates(record) {
                Err(error) => Err(error),
                Ok((initiator, responder)) => if (id != record.initiator_device_id || key
                    != record.initiator_public_key) && (id != record.responder_device_id || key
                    != record.responder_public_key) {
                    Err(SyncError::NotActiveParticipant)
                } else {
                    record_context(record, initiator, responder)
                },
            },
        }
    }

    /// The PairID of the active pairing of two devices, searching `names`.
    pub open spec fn active_pair(self, names: Seq<EntryView>, local: Seq<char>, peer: Seq<char>) -> Result<
        Option<Seq<char>>,
        SyncError,
    >
        decreases names.len(),
    {
        if names.len() == 0 {
            Ok(None)
        } else {
            let rest = self.active_pair(names.drop_first(), local, peer);
            let stem = file_stem(names[0].name);
            if !valid_utf8(stem) {
                rest
            } else {
                match self.loaded(decode_utf8(stem)) {
                    Err(error) => Err(error),
                    Ok(None) => rest,
                    Ok(Some(record)) => if record.binds(local, peer) {
                        Ok(Some(record.pair_id))
                    } else {
                        rest
                    },
                }
            }
        }
    }

    /// The pins found among active entries for two devices, searching `names`.
    pub open spec fn active_context(
        self,
        names: Seq<EntryView>,
        secret: Seq<u8>,
        peer: Seq<char>,
    ) -> Result<Option<ContextView>, SyncError>
        decreases names.len(),
    {
        if names.len() == 0 {
            Ok(None)
        } else {
            let rest = self.active_context(names.drop_first(), secret, peer);
            let stem = file_stem(names[0].name);
            if !valid_utf8(stem) {
                rest
            } else {
                match self.loaded(decode_utf8(stem)) {
                    Err(error) => Err(error),
                    Ok(None) => rest,
                    Ok(Some(record)) => if record.binds(
                        device_id_of(ed25519_public(secret)),
                        peer,
                    ) {
                        match participant_context(record, self.root, secret) {
                            Err(error) => Err(error),
                            Ok(context) => Ok(Some(context)),
                        }
                    } else {
                        rest
                    },
                }
            }
        }
    }

    /// The pins from pending or active state for two devices.
    pub open spec fn recovering(self, secret: Seq<u8>, peer: Seq<char>) -> Result<
        Option<ContextView>,
        SyncError,
    > {
        match self.pending_between(device_id_of(ed25519_public(secret)), peer) {
            Err(error) => Err(error),
            Ok(Some(record)) => match participant_context(record, self.root, secret) {
                Err(error) => Err(error),
                Ok(context) => Ok(Some(context)),
            },
            Ok(None) => self.active_context(self.active, secret, peer),
        }
    }

    /// Writes a record as pending, if its stored form is within bounds. A
    /// record under the same PairID must be the same pairing; it is then kept
    /// if it is complete, and never overwritten.
    pub open spec fn pending_written(self, record: RecordView) -> (
        Result<(), SyncError>,
        StoreView,
    ) {
        let name = record_name(record.pair_id);
        if !is_id(record.pair_id) {
            (Err(SyncError::InvalidPairingId), self)
        } else {
            match lookup(self.pending, name) {
                Some(Err(error)) => (Err(error), self),
                Some(Ok(old_record)) => match binding_error(old_record, record) {
                    Some(error) => (Err(error), self),
                    None => if old_record.complete() {
                        (Ok(()), self)
                    } else if !storable(record) {
                        (Err(SyncError::RecordTooLarge), self)
                    } else {
                        (Err(SyncError::RecordAppeared), self)
                    },
                },
                None => if !storable(record) {
                    (Err(SyncError::RecordTooLarge), self)
                } else {
                    (
                        Ok(()),
                        StoreView {
                            pending: written(self.pending, name, record),
                            journal: self.journal.push(
                                ChangeView::WritePending(name, record_json(record)),
                            ),
                            ..self
                        },
                    )
                },
            }
        }
    }

    /// Sweeps out the pending records of the two devices of an active record.
    pub open spec fn pending_swept(self, record: RecordView) -> (
        Result<(), SyncError>,
        StoreView,
    ) {
        let (fault, kept, removed) = swept(self.pending, record);
        (
            checked(fault),
            StoreView { pending: kept, journal: self.journal + removed, ..self },
        )
    }

    /// Makes a record active. A revoked PairID is refused, and so is a different
    /// record under the same PairID, or one whose stored form is out of bounds.
    pub open spec fn activated(self, record: RecordView) -> (Result<(), SyncError>, StoreView) {
        let name = record_name(record.pair_id);
        if !is_id(record.pair_id) {
            (Err(SyncError::InvalidPairingId), self)
        } else if self.revoked.contains(name) {
            (Err(SyncError::PairIdRevoked), self)
        } else {
            match lookup(self.active, name) {
                Some(Err(error)) => (Err(error), self),
                Some(Ok(existing)) => if existing != record {
                    (Err(SyncError::RecordConflict), self)
                } else {
                    self.pending_swept(record)
                },
                None => if !storable(record) {
                    (Err(SyncError::RecordTooLarge), self)
                } else {
                    StoreView {
                        active: written(self.active, name, record),
                        journal: self.journal.push(
                            ChangeView::WriteActive(name, record_json(record)),
                        ),
                        ..self
                    }.pending_swept(record)
                },
            }
        }
    }

    /// Revokes a pairing.
    pub open spec fn revoking(self, pair_id: Seq<char>) -> (Result<(), SyncError>, StoreView) {
        let name = record_name(pair_id);
        if !is_id(pair_id) {
            (Err(SyncError::InvalidPairingId), self)
        } else {
            match lookup(self.active, name) {
                None => (Err(SyncError::ActiveMissing), self),
                Some(Err(error)) => (Err(error), self),
                Some(Ok(record)) => match stored_error(record, self.root) {
                    Some(error) => (Err(error), self),
                    None => if self.revoked.contains(name) {
                        (Err(SyncError::AlreadyRevoked), self)
                    } else {
                        (
                            Ok(()),
                            StoreView {
                                active: without(self.active, name),
                                revoked: self.revoked.push(name),
                                journal: self.journal.push(ChangeView::Revoke(name)),
                                ..self
                            },
                        )
                    },
                },
            }
        }
    }

    /// Signs a record in the local role of a session, checks it and writes it
    /// as pending.
    pub open spec fn signed_and_written(
        self,
        record: RecordView,
        s: SessionView,
        secret: Seq<u8>,
        complete: bool,
    ) -> (Result<RecordView, SyncError>, StoreView) {
        let role = if s.local_role == ROLE_INITIATOR {
            ROLE_INITIATOR
        } else {
            ROLE_RESPONDER
        };
        match record_sign_error(record) {
            Some(error) => (Err(error), self),
            None => {
                let signed = record.with_signature(
                    role,
                    ed25519_sign(secret, record_message(record, role)),
                );
                match session_record_error(
                    signed,
                    s,
                    secret,
                    self.root,
                    self.now,
                    (Demands { complete, bound: true, at_authorization: false }),
                ) {
                    Some(error) => (Err(error), self),
                    None => {
                        let (result, after) = self.pending_written(signed);
                        match result {
                            Err(error) => (Err(error), after),
                            Ok(_) => (Ok(signed), after),
                        }
                    },
                }
            },
        }
    }

    /// Prepares a record for a session once the broker has decided.
    #[verifier::opaque]
    pub open spec fn prepared(
        self,
        s: SessionView,
        secret: Seq<u8>,
        decision: Result<Seq<char>, SyncError>,
    ) -> (Result<RecordView, SyncError>, StoreView) {
        match session_identity_error(s, secret) {
            Some(error) => (Err(error), self),
            None => match decision {
                Err(_) => (Err(SyncError::AuthorizationDenied), self),
                Ok(user_presence) => if !is_marker(user_presence) {
                    (Err(SyncError::UserPresence), self)
                } else {
                    match session_encode_error(s) {
                        Some(error) => (Err(error), self),
                        None => self.signed_and_written(
                            session_record(s, s.pair_id, user_presence, secret, self.now),
                            s,
                            secret,
                            false,
                        ),
                    }
                },
            },
        }
    }

    /// Prepares a record for a session from an earlier authorization.
    #[verifier::opaque]
    pub open spec fn resumed(self, s: SessionView, secret: Seq<u8>, pending: RecordView) -> (
        Result<RecordView, SyncError>,
        StoreView,
    ) {
        match session_identity_error(s, secret) {
            Some(error) => (Err(error), self),
            None => match pending_error(pending, self.root) {
                Some(error) => (Err(error), self),
                None => if pending.authorizing_device_id != device_id_of(ed25519_public(secret)) {
                    (Err(SyncError::PendingOfAnotherDevice), self)
                } else {
                    match session_encode_error(s) {
                        Some(error) => (Err(error), self),
                        None => self.signed_and_written(
                            session_record(
                                s,
                                s.pair_id,
                                pending.user_presence,
                                secret,
                                pending.authorized_at,
                            ),
                            s,
                            secret,
                            false,
                        ),
                    }
                },
            },
        }
    }

    /// Co-signs the record that the peer has prepared and signed.
    #[verifier::opaque]
    pub open spec fn co_signed(self, s: SessionView, secret: Seq<u8>, pending: RecordView) -> (
        Result<RecordView, SyncError>,
        StoreView,
    ) {
        let role = if s.local_role == ROLE_INITIATOR {
            ROLE_INITIATOR
        } else {
            ROLE_RESPONDER
        };
        match session_identity_error(s, secret) {
            Some(error) => (Err(error), self),
            None => if pending.complete() {
                (Err(SyncError::AlreadyFullySigned), self)
            } else {
                match session_record_error(
                    pending,
                    s,
                    secret,
                    self.root,
                    self.now,
                    (Demands { complete: false, bound: true, at_authorization: false }),
                ) {
                    Some(error) => (Err(error), self),
                    None => if pending.signature(role) is Some {
                        (Err(SyncError::AlreadySignedLocally), self)
                    } else {
                        self.signed_and_written(pending, s, secret, true)
                    },
                }
            },
        }
    }

    /// Activates a complete record, bound to the session or not.
    #[verifier::opaque]
    pub open spec fn accepted(
        self,
        s: SessionView,
        secret: Seq<u8>,
        record: RecordView,
        reconciling: bool,
    ) -> (Result<(), SyncError>, StoreView) {
        match session_identity_error(s, secret) {
            Some(error) => (Err(error), self),
            None => match session_record_error(
                record,
                s,
                secret,
                self.root,
                self.now,
                (Demands {
                    complete: true,
                    bound: !reconciling,
                    at_authorization: reconciling,
                }),
            ) {
                Some(error) => (Err(error), self),
                None => self.activated(record),
            },
        }
    }
}

// ---------------------------------------------------------------------------
// The store.
// ---------------------------------------------------------------------------
/// Store for active bilateral records and incomplete pending records. It never
/// creates a capability file.
pub struct PairingStore {
    active: Vec<Entry>,
    pending: Vec<Entry>,
    revoked: Vec<Vec<u8>>,
    root: PinnedOmarchyRoot,
    now: u64,
    journal: Vec<Change>,
}

/// The names in a directory.
pub open spec fn names_view(names: Seq<Vec<u8>>) -> Seq<Seq<u8>> {
    names.map_values(|name: Vec<u8>| name@)
}

/// The changes in a journal.
pub open spec fn journal_view(changes: Seq<Change>) -> Seq<ChangeView> {
    changes.map_values(|change: Change| change@)
}

impl View for PairingStore {
    type V = StoreView;

    closed spec fn view(&self) -> StoreView {
        StoreView {
            active: entries_view(self.active@),
            pending: entries_view(self.pending@),
            revoked: names_view(self.revoked@),
            root: self.root@,
            now: self.now,
            journal: journal_view(self.journal@),
        }
    }
}

/// The name under which a record is kept.
pub fn record_file_name(pair_id: &str) -> (result: Vec<u8>)
    ensures
        result@ == record_name(pair_id@),
{
    let mut name: Vec<u8> = Vec::new();
    append(&mut name, pair_id.as_bytes());
    append(&mut name, ".json".as_bytes());
    assert(name@ =~= record_name(pair_id@));
    name
}

/// What is found under a name.
fn find<'a>(entries: &'a Vec<Entry>, name: &[u8]) -> (result: Option<
    Result<&'a PairingRecord, SyncError>,
>)
    ensures
        match result {
            None => lookup(entries_view(entries@), name@) is None,
            Some(Ok(record)) => lookup(entries_view(entries@), name@) == Some(
                Ok::<RecordView, SyncError>(record@),
            ),
            Some(Err(error)) => lookup(entries_view(entries@), name@) == Some(
                Err::<RecordView, SyncError>(error),
            ),
        },
{
    let ghost all = entries_view(entries@);
    let mut i: usize = 0;
    assert(all.skip(0) =~= all);
    while i < entries.len()
        invariant
            i <= entries@.len(),
            all == entries_view(entries@),
            lookup(all, name@) == lookup(all.skip(i as int), name@),
        decreases entries@.len() - i,
    {
        let entry = &entries[i];
        proof {
            assert(all.skip(i as int)[0] == entry@);
            assert(all.skip(i as int).drop_first() =~= all.skip(i + 1));
        }
        if bytes_eq(entry.name.as_slice(), name) {
            match &entry.content {
                EntryContent::Absent => {},
                EntryContent::Unreadable(error) => {
                    return Some(Err(*error));
                },
                EntryContent::Record(record) => {
                    return Some(Ok(record));
                },
            }
        }
        i = i + 1;
    }
    None
}

/// Whether a name is among others.
fn has_name(names: &Vec<Vec<u8>>, name: &[u8]) -> (result: bool)
    ensures
        result == names_view(names@).contains(name@),
{
    let mut i: usize = 0;
    while i < names.len()
        invariant
            i <= names@.len(),
            forall|j: int| 0 <= j < i ==> (#[trigger] names_view(names@)[j]) != name@,
        decreases names@.len() - i,
    {
        assert(names_view(names@)[i as int] == names@[i as int]@);
        if bytes_eq(names[i].as_slice(), name) {
            return true;
        }
        i = i + 1;
    }
    false
}

/// A copy of some bytes.
fn copied(bytes: &[u8]) -> (result: Vec<u8>)
    ensures
        result@ == bytes@,
{
    let mut copy: Vec<u8> = Vec::new();
    append(&mut copy, bytes);
    assert(copy@ =~= bytes@);
    copy
}

/// A copy of an entry.
fn copied_entry(entry: &Entry) -> (result: Entry)
    ensures
        result@ == entry@,
{
    let name: Vec<u8> = copied(entry.name.as_slice());
    let content = match &entry.content {
        EntryContent::Absent => EntryContent::Absent,
        EntryContent::Unreadable(error) => EntryContent::Unreadable(*error),
        EntryContent::Record(record) => EntryContent::Record(record.clone()),
    };
    Entry { name, content }
}

/// The entries without those of a name.
fn remove_name(entries: &Vec<Entry>, name: &[u8]) -> (result: Vec<Entry>)
    ensures
        entries_view(result@) == without(entries_view(entries@), name@),
{
    let ghost all = entries_view(entries@);
    let mut kept: Vec<Entry> = Vec::new();
    let mut i: usize = 0;
    assert(entries_view(kept@) =~= without(all.take(0), name@));
    while i < entries.len()
        invariant
            i <= entries@.len(),
            all == entries_view(entries@),
            entries_view(kept@) == without(all.take(i as int), name@),
        decreases entries@.len() - i,
    {
        let entry = &entries[i];
        proof {
            assert(all.take(i + 1).drop_last() =~= all.take(i as int));
            assert(all.take(i + 1).last() == entry@);
        }
        if !bytes_eq(entry.name.as_slice(), name) {
            let ghost before = kept@;
            kept.push(copied_entry(entry));
            assert(entries_view(kept@) =~= entries_view(before).push(entry@));
        }
        i = i + 1;
    }
    assert(all.take(all.len() as int) =~= all);
    kept
}

/// The part of a file name before its extension.
fn stem_of(name: &Vec<u8>) -> (result: Vec<u8>)
    ensures
        result@ == file_stem(name@),
{
    let mut i: usize = name.len();
    assert(name@.take(name@.len() as int) =~= name@);
    while i > 0 && name[i - 1] != 0x2e
        invariant
            i <= name@.len(),
            last_dot(name@) == last_dot(name@.take(i as int)),
        decreases i,
    {
        assert(name@.take(i as int).drop_last() =~= name@.take(i - 1));
        i = i - 1;
    }
    let end: usize = if i <= 1 {
        name.len()
    } else {
        i - 1
    };
    let mut stem: Vec<u8> = Vec::new();
    append(&mut stem, vstd::slice::slice_subrange(name.as_slice(), 0, end));
    assert(stem@ =~= file_stem(name@));
    stem
}

impl PairingStore {
    /// Opens a store on what was found in its directories.
    pub fn open(
        active: Vec<Entry>,
        pending: Vec<Entry>,
        revoked: Vec<Vec<u8>>,
        root: PinnedOmarchyRoot,
        now: u64,
    ) -> (result: Self)
        ensures
            result@ == (StoreView {
                active: entries_view(active@),
                pending: entries_view(pending@),
                revoked: names_view(revoked@),
                root: root@,
                now,
                journal: Seq::empty(),
            }),
    {
        let store = PairingStore { active, pending, revoked, root, now, journal: Vec::new() };
        assert(store@.journal =~= Seq::empty());
        store
    }

    /// Hands out the changes to make to the directories, in order, and starts
    /// a new journal. The changes of a refused operation were made before it
    /// was refused, and stand.
    pub fn take_changes(&mut self) -> (result: Vec<Change>)
        ensures
            journal_view(result@) == old(self)@.journal,
            final(self)@ == (StoreView { journal: Seq::empty(), ..old(self)@ }),
    {
        let mut changes: Vec<Change> = Vec::new();
        std::mem::swap(&mut changes, &mut self.journal);
        assert(self@.journal =~= Seq::empty());
        changes
    }

    /// Loads an active record.
    pub fn load(&self, pair_id: &str) -> (result: Result<Option<PairingRecord>, SyncError>)
        ensures
            found(result) == self@.loaded(pair_id@),
    {
        checked_pair_id(pair_id)?;
        let name: Vec<u8> = record_file_name(pair_id);
        match find(&self.active, name.as_slice()) {
            None => Ok(None),
            Some(Err(error)) => Err(error),
            Some(Ok(record)) => {
                if !str_eq(record.pair_id.as_str(), pair_id) {
                    return Err(SyncError::RecordFilename);
                }
                record.validate_stored(&self.root)?;
                Ok(Some(record.clone()))
            },
        }
    }

    /// Loads a pending record.
    pub fn load_pending(&self, pair_id: &str) -> (result: Result<Option<PairingRecord>, SyncError>)
        ensures
            found(result) == self@.loaded_pending(pair_id@),
    {
        checked_pair_id(pair_id)?;
        let name: Vec<u8> = record_file_name(pair_id);
        match find(&self.pending, name.as_slice()) {
            None => Ok(None),
            Some(Err(error)) => Err(error),
            Some(Ok(record)) => Ok(Some(record.clone())),
        }
    }

    /// Returns a locally pending record for this exact bilateral identity.
    /// Pending state is never active trust, but it is sufficient to resume a
    /// pairing after a lost message without asking the user again.
    pub fn pending_for_peer(&self, local_device_id: &str, peer_device_id: &str) -> (result: Result<
        Option<PairingRecord>,
        SyncError,
    >)
        ensures
            found(result) == self@.pending_between(local_device_id@, peer_device_id@),
    {
        validate_device_id(local_device_id)?;
        validate_device_id(peer_device_id)?;
        let ghost all = self@.pending;
        let mut i: usize = 0;
        assert(all.skip(0) =~= all);
        while i < self.pending.len()
            invariant
                i <= self.pending@.len(),
                all == entries_view(self.pending@),
                first_pending(all, self.root@, local_device_id@, peer_device_id@)
                    == first_pending(
                    all.skip(i as int),
                    self.root@,
                    local_device_id@,
                    peer_device_id@,
                ),
                is_id(local_device_id@),
                is_id(peer_device_id@),
            decreases self.pending@.len() - i,
        {
            let entry = &self.pending[i];
            proof {
                assert(all.skip(i as int)[0] == entry@);
                assert(all.skip(i as int).drop_first() =~= all.skip(i + 1));
            }
            match &entry.content {
                EntryContent::Absent => {},
                EntryContent::Unreadable(error) => {
                    return Err(*error);
                },
                EntryContent::Record(record) => {
                    record.validate_pending_stored(&self.root)?;
                    if record.binds_devices(local_device_id, peer_device_id) {
                        return Ok(Some(record.clone()));
                    }
                },
            }
            i = i + 1;
        }
        Ok(None)
    }

    /// Reports whether an active, fully bilateral record binds these two
    /// DeviceIDs. Invalid records fail closed rather than being ignored.
    pub fn has_active_pairing(&self, local_device_id: &str, peer_device_id: &str) -> (result:
        Result<bool, SyncError>)
        ensures
            result == self@.active_between(local_device_id@, peer_device_id@),
    {
        validate_device_id(local_device_id)?;
        validate_device_id(peer_device_id)?;
        let ghost all = self@.active;
        let mut i: usize = 0;
        assert(all.skip(0) =~= all);
        while i < self.active.len()
            invariant
                i <= self.active@.len(),
                all == entries_view(self.active@),
                any_active(all, self.root@, local_device_id@, peer_device_id@) == any_active(
                    all.skip(i as int),
                    self.root@,
                    local_device_id@,
                    peer_device_id@,
                ),
                is_id(local_device_id@),
                is_id(peer_device_id@),
            decreases self.active@.len() - i,
        {
            let entry = &self.active[i];
            proof {
                assert(all.skip(i as int)[0] == entry@);
                assert(all.skip(i as int).drop_first() =~= all.skip(i + 1));
            }
            match &entry.content {
                EntryContent::Absent => {},
                EntryContent::Unreadable(error) => {
                    return Err(*error);
                },
                EntryContent::Record(record) => {
                    record.validate_stored(&self.root)?;
                    if record.binds_devices(local_device_id, peer_device_id) {
                        return Ok(true);
                    }
                },
            }
            i = i + 1;
        }
        Ok(false)
    }

    /// The pins of a record for one of its participants.
    fn context_from_record(&self, record: &PairingRecord, identity: &DeviceIdentity) -> (result:
        Result<PairedIdentityContext, SyncError>)
        ensures
            outcome(result) == participant_context(record@, self@.root, identity@),
    {
        record.validate_pending_stored(&self.root)?;
        let (initiator, responder) = record.certificates()?;
        let id = identity.device_id();
        if id != record.initiator_device_id && id != record.responder_device_id {
            return Err(SyncError::NotPendingParticipant);
        }
        Self::context_from_record_parts(record, initiator, responder)
    }

    /// The pins of a record whose certificates are given.
    fn context_from_record_parts(
        record: &PairingRecord,
        initiator: DeviceCertificate,
        responder: DeviceCertificate,
    ) -> (result: Result<PairedIdentityContext, SyncError>)
        ensures
            outcome(result) == record_context(record@, initiator@, responder@),
    {
        PairedIdentityContext::from_validated_record(
            record.pair_id.clone(),
            record.initiator_device_id.clone(),
            record.responder_device_id.clone(),
            record.initiator_public_key,
            record.responder_public_key,
            initiator,
            responder,
        )
    }

    /// Builds a reconnect context from active or pending bilateral state. This
    /// is intentionally limited to the two certified identities in the local
    /// record; it cannot authorize a new peer or create capabilities.
    pub fn recovery_context(&self, identity: &DeviceIdentity, peer_device_id: &str) -> (result:
        Result<Option<PairedIdentityContext>, SyncError>)
        ensures
            found(result) == self@.recovering(identity@, peer_device_id@),
    {
        let local_device_id = identity.device_id();
        match self.pending_for_peer(local_device_id.as_str(), peer_device_id)? {
            Some(record) => {
                return Ok(Some(self.context_from_record(&record, identity)?));
            },
            None => {},
        }
        let ghost all = self@.active;
        let mut i: usize = 0;
        assert(all.skip(0) =~= all);
        while i < self.active.len()
            invariant
                i <= self.active@.len(),
                all == entries_view(self.active@),
                all == self@.active,
                self@.root == self.root@,
                local_device_id@ == device_id_of(ed25519_public(identity@)),
                self@.recovering(identity@, peer_device_id@) == self@.active_context(
                    all.skip(i as int),
                    identity@,
                    peer_device_id@,
                ),
            decreases self.active@.len() - i,
        {
            let entry = &self.active[i];
            proof {
                assert(all.skip(i as int)[0] == entry@);
                assert(all.skip(i as int).drop_first() =~= all.skip(i + 1));
            }
            match text_from_utf8(stem_of(&entry.name).as_slice()) {
                None => {},
                Some(stem) => {
                    match self.load(stem.as_str())? {
                        None => {},
                        Some(record) => {
                            if record.binds_devices(local_device_id.as_str(), peer_device_id) {
                                return Ok(Some(self.context_from_record(&record, identity)?));
                            }
                        },
                    }
                },
            }
            i = i + 1;
        }
        Ok(None)
    }

    /// The PairID of the active pairing of two devices.
    pub fn active_pair_for_peer(&self, local_device_id: &str, peer_device_id: &str) -> (result:
        Result<Option<String>, SyncError>)
        ensures
            found(result) == self@.active_pair(self@.active, local_device_id@, peer_device_id@),
    {
        let ghost all = self@.active;
        let mut i: usize = 0;
        assert(all.skip(0) =~= all);
        while i < self.active.len()
            invariant
                i <= self.active@.len(),
                all == entries_view(self.active@),
                all == self@.active,
                self@.active_pair(all, local_device_id@, peer_device_id@) == self@.active_pair(
                    all.skip(i as int),
                    local_device_id@,
                    peer_device_id@,
                ),
            decreases self.active@.len() - i,
        {
            let entry = &self.active[i];
            proof {
                assert(all.skip(i as int)[0] == entry@);
                assert(all.skip(i as int).drop_first() =~= all.skip(i + 1));
            }
            match text_from_utf8(stem_of(&entry.name).as_slice()) {
                None => {},
                Some(stem) => {
                    match self.load(stem.as_str())? {
                        None => {},
                        Some(record) => {
                            if record.binds_devices(local_device_id, peer_device_id) {
                                return Ok(Some(record.pair_id));
                            }
                        },
                    }
                },
            }
            i = i + 1;
        }
        Ok(None)
    }

    /// Builds the only reconnect credential accepted by the pairing transport.
    /// The active record is fully validated at its signed authorization time,
    /// so an enrollment certificate expiring later does not invalidate the
    /// bilateral identity relationship. The caller is pinned to the exact
    /// public key in the signed record; a DeviceID-only match is insufficient.
    pub fn reconnect_context(&self, identity: &DeviceIdentity, pair_id: &str) -> (result: Result<
        PairedIdentityContext,
        SyncError,
    >)
        ensures
            outcome(result) == self@.reconnecting(identity@, pair_id@),
    {
        let record = match self.load(pair_id)? {
            Some(record) => record,
            None => {
                return Err(SyncError::ActiveMissing);
            },
        };
        let (initiator, responder) = record.certificates()?;
        let local_id = identity.device_id();
        let local_key: [u8; 32] = identity.public_key();
        if (local_id != record.initiator_device_id || !bytes_eq(
            local_key.as_slice(),
            record.initiator_public_key.as_slice(),
        )) && (local_id != record.responder_device_id || !bytes_eq(
            local_key.as_slice(),
            record.responder_public_key.as_slice(),
        )) {
            return Err(SyncError::NotActiveParticipant);
        }
        Self::context_from_record_parts(&record, initiator, responder)
    }

    /// Writes a record as pending.
    pub fn write_pending(&mut self, record: &PairingRecord) -> (result: Result<(), SyncError>)
        ensures
            (result, final(self)@) == old(self)@.pending_written(record@),
    {
        checked_pair_id(record.pair_id.as_str())?;
        let name: Vec<u8> = record_file_name(record.pair_id.as_str());
        match find(&self.pending, name.as_slice()) {
            Some(Err(error)) => {
                return Err(error);
            },
            Some(Ok(old_record)) => {
                old_record.ensure_same_binding(record)?;
                if old_record.is_complete() {
                    return Ok(());
                }
                record.to_bytes()?;
                return Err(SyncError::RecordAppeared);
            },
            None => {},
        }
        let bytes: Vec<u8> = record.to_bytes()?;
        let mut entries: Vec<Entry> = remove_name(&self.pending, name.as_slice());
        let ghost before = entries@;
        let entry = Entry {
            name: copied(name.as_slice()),
            content: EntryContent::Record(record.clone()),
        };
        let ghost added = entry@;
        entries.push(entry);
        assert(entries_view(entries@) =~= entries_view(before).push(added));
        self.pending = entries;
        self.record_change(Change::WritePending(name, bytes));
        Ok(())
    }

    /// Adds a change to the journal.
    fn record_change(&mut self, change: Change)
        ensures
            final(self)@ == (StoreView {
                journal: old(self)@.journal.push(change@),
                ..old(self)@
            }),
            final(self).pending == old(self).pending,
    {
        self.journal.push(change);
        assert(self@.journal =~= old(self)@.journal.push(change@));
    }

    /// Makes a record active.
    pub fn persist_active(&mut self, record: &PairingRecord) -> (result: Result<(), SyncError>)
        ensures
            (result, final(self)@) == old(self)@.activated(record@),
    {
        checked_pair_id(record.pair_id.as_str())?;
        let name: Vec<u8> = record_file_name(record.pair_id.as_str());
        if has_name(&self.revoked, name.as_slice()) {
            return Err(SyncError::PairIdRevoked);
        }
        match find(&self.active, name.as_slice()) {
            Some(Err(error)) => {
                return Err(error);
            },
            Some(Ok(existing)) => {
                if !existing.same_as(record) {
                    return Err(SyncError::RecordConflict);
                }
                return self.remove_stale_pending(record);
            },
            None => {},
        }
        let bytes: Vec<u8> = record.to_bytes()?;
        let mut entries: Vec<Entry> = remove_name(&self.active, name.as_slice());
        let ghost before = entries@;
        let entry = Entry {
            name: copied(name.as_slice()),
            content: EntryContent::Record(record.clone()),
        };
        let ghost added = entry@;
        entries.push(entry);
        assert(entries_view(entries@) =~= entries_view(before).push(added));
        self.active = entries;
        self.record_change(Change::WriteActive(name, bytes));
        self.remove_stale_pending(record)
    }

    /// Once a bilateral record is active, incomplete attempts for the same two
    /// identities are no longer useful recovery state. Removes them so a
    /// completed relationship does not keep retriggering recovery forever.
    fn remove_stale_pending(&mut self, active: &PairingRecord) -> (result: Result<(), SyncError>)
        ensures
            (result, final(self)@) == old(self)@.pending_swept(active@),
    {
        let ghost all = self@.pending;
        let ghost journal = self@.journal;
        let mut kept: Vec<Entry> = Vec::new();
        let mut fault: Option<SyncError> = None;
        let mut i: usize = 0;
        assert(entries_view(kept@) =~= swept(all.take(0), active@).1);
        assert(self@.journal =~= journal + swept(all.take(0), active@).2);
        while i < self.pending.len()
            invariant
                i <= self.pending@.len(),
                all == entries_view(self.pending@),
                all == old(self)@.pending,
                journal == old(self)@.journal,
                (fault, entries_view(kept@)) == (
                    swept(all.take(i as int), active@).0,
                    swept(all.take(i as int), active@).1,
                ),
                self@ == (StoreView {
                    journal: journal + swept(all.take(i as int), active@).2,
                    ..old(self)@
                }),
            decreases self.pending@.len() - i,
        {
            let ghost rest = swept(all.take(i as int), active@);
            proof {
                assert(all.take(i + 1).drop_last() =~= all.take(i as int));
                assert(all.take(i + 1).last() == self.pending@[i as int]@);
            }
            let mut removes: bool = false;
            if fault.is_none() {
                match &self.pending[i].content {
                    EntryContent::Absent => {},
                    EntryContent::Unreadable(error) => {
                        fault = Some(*error);
                    },
                    EntryContent::Record(pending) => {
                        removes = pending.binds_devices(
                            active.initiator_device_id.as_str(),
                            active.responder_device_id.as_str(),
                        );
                    },
                }
            }
            let entry = copied_entry(&self.pending[i]);
            if removes {
                let name: Vec<u8> = entry.name;
                self.record_change(Change::RemovePending(name));
                assert(self@.journal =~= journal + rest.2.push(
                    ChangeView::RemovePending(name@),
                ));
            } else {
                let ghost before = kept@;
                kept.push(entry);
                assert(entries_view(kept@) =~= entries_view(before).push(entry@));
            }
            i = i + 1;
        }
        assert(all.take(all.len() as int) =~= all);
        self.pending = kept;
        match fault {
            Some(error) => Err(error),
            None => Ok(()),
        }
    }

    /// Revokes a pairing by removing it from the active set. Retaining the
    /// record outside the active directory prevents accidental resurrection;
    /// `reconnect_context` never consults revoked records.
    pub fn revoke(&mut self, pair_id: &str) -> (result: Result<(), SyncError>)
        ensures
            (result, final(self)@) == old(self)@.revoking(pair_id@),
    {
        checked_pair_id(pair_id)?;
        let name: Vec<u8> = record_file_name(pair_id);
        match find(&self.active, name.as_slice()) {
            None => {
                return Err(SyncError::ActiveMissing);
            },
            Some(Err(error)) => {
                return Err(error);
            },
            Some(Ok(record)) => {
                record.validate_stored(&self.root)?;
            },
        }
        if has_name(&self.revoked, name.as_slice()) {
            return Err(SyncError::AlreadyRevoked);
        }
        self.active = remove_name(&self.active, name.as_slice());
        self.revoked.push(copied(name.as_slice()));
        assert(self@.revoked =~= old(self)@.revoked.push(name@));
        self.record_change(Change::Revoke(name));
        Ok(())
    }

    /// Signs a record in the local role of a session, checks it and writes it
    /// as pending.
    fn sign_and_write(
        &mut self,
        unsigned: PairingRecord,
        session: &AuthenticatedPairingSession,
        identity: &DeviceIdentity,
        complete: bool,
    ) -> (result: Result<PairingRecord, SyncError>)
        ensures
            (outcome(result), final(self)@) == old(self)@.signed_and_written(
                unsigned@,
                session@,
                identity@,
                complete,
            ),
    {
        let role: u8 = local_role(session);
        let signature: [u8; 64] = unsigned.sign_record(identity, role)?;
        let mut record = unsigned;
        record.set_signature(role, signature);
        record.validate_record(
            session,
            identity,
            &self.root,
            self.now,
            Demands { complete, bound: true, at_authorization: false },
        )?;
        self.write_pending(&record)?;
        Ok(record)
    }

    /// Signs the authenticated session once the local broker has decided. This
    /// creates pending state only; it does not activate trust.
    pub fn prepare_decided(
        &mut self,
        session: &AuthenticatedPairingSession,
        identity: &DeviceIdentity,
        decision: Result<AuthorizationGrant, SyncError>,
    ) -> (result: Result<PairingRecord, SyncError>)
        ensures
            (outcome(result), final(self)@) == old(self)@.prepared(
                session@,
                identity@,
                outcome(decision),
            ),
    {
        proof {
            reveal(StoreView::prepared);
        }
        validate_session_identity(session, identity)?;
        let grant = match decision {
            Ok(grant) => grant,
            Err(_) => {
                return Err(SyncError::AuthorizationDenied);
            },
        };
        if !check_marker(grant.user_presence.as_str()) {
            return Err(SyncError::UserPresence);
        }
        let record = record_from_session(
            session,
            session.pair_id(),
            grant.user_presence.as_str(),
            identity,
            self.now,
        )?;
        self.sign_and_write(record, session, identity, false)
    }

    /// Asks the local authorization broker and signs the authenticated session.
    /// This creates pending state only; it does not activate trust. The broker
    /// is asked only for an identity that is the local end of the session.
    pub fn prepare<B: AuthorizationBroker>(
        &mut self,
        session: &AuthenticatedPairingSession,
        identity: &DeviceIdentity,
        broker: &B,
    ) -> (result: Result<PairingRecord, SyncError>)
        ensures
            match session_identity_error(session@, identity@) {
                Some(error) => {
                    &&& result == Err::<PairingRecord, SyncError>(error)
                    &&& final(self)@ == old(self)@
                },
                None => exists|
                    peer: &DeviceCertificate,
                    decision: Result<AuthorizationGrant, SyncError>,
                |
                    peer@ == session@.peer_certificate && #[trigger] call_ensures(
                        B::authorize,
                        (broker, peer),
                        decision,
                    ) && (outcome(result), final(self)@) == old(self)@.prepared(
                        session@,
                        identity@,
                        outcome(decision),
                    ),
            },
    {
        validate_session_identity(session, identity)?;
        let peer = session.peer_certificate();
        let decision = broker.authorize(peer);
        assert(call_ensures(B::authorize, (broker, peer), decision));
        self.prepare_decided(session, identity, decision)
    }

    /// Verifies the authenticated peer and co-signs the exact pending record.
    /// The co-signing side does not authorize the peer again.
    pub fn co_sign(
        &mut self,
        session: &AuthenticatedPairingSession,
        identity: &DeviceIdentity,
        pending: &PairingRecord,
    ) -> (result: Result<PairingRecord, SyncError>)
        ensures
            (outcome(result), final(self)@) == old(self)@.co_signed(
                session@,
                identity@,
                pending@,
            ),
    {
        proof {
            reveal(StoreView::co_signed);
        }
        validate_session_identity(session, identity)?;
        if pending.is_complete() {
            return Err(SyncError::AlreadyFullySigned);
        }
        pending.validate_record(
            session,
            identity,
            &self.root,
            self.now,
            Demands { complete: false, bound: true, at_authorization: false },
        )?;
        if pending.signature_for(local_role(session)).is_some() {
            return Err(SyncError::AlreadySignedLocally);
        }
        self.sign_and_write(pending.clone(), session, identity, true)
    }

    /// Resumes a responder-only authorization after the initiator lost its
    /// pending copy. The authenticated certificates are rebound to this fresh
    /// session, while the prior local user-presence marker is reused; no second
    /// authorization prompt is performed.
    pub fn resume_prepare(
        &mut self,
        session: &AuthenticatedPairingSession,
        identity: &DeviceIdentity,
        pending: &PairingRecord,
    ) -> (result: Result<PairingRecord, SyncError>)
        ensures
            (outcome(result), final(self)@) == old(self)@.resumed(session@, identity@, pending@),
    {
        proof {
            reveal(StoreView::resumed);
        }
        validate_session_identity(session, identity)?;
        pending.validate_pending_stored(&self.root)?;
        if pending.authorizing_device_id != identity.device_id() {
            return Err(SyncError::PendingOfAnotherDevice);
        }
        let record = record_from_session(
            session,
            session.pair_id(),
            pending.user_presence.as_str(),
            identity,
            pending.authorized_at,
        )?;
        self.sign_and_write(record, session, identity, false)
    }

    /// Activates a fully bilateral record on this device. Incomplete records
    /// remain pending and can never enter the active directory.
    pub fn finalize(
        &mut self,
        session: &AuthenticatedPairingSession,
        identity: &DeviceIdentity,
        record: &PairingRecord,
    ) -> (result: Result<(), SyncError>)
        ensures
            (result, final(self)@) == old(self)@.accepted(session@, identity@, record@, false),
    {
        proof {
            reveal(StoreView::accepted);
        }
        validate_session_identity(session, identity)?;
        record.validate_record(
            session,
            identity,
            &self.root,
            self.now,
            Demands { complete: true, bound: true, at_authorization: false },
        )?;
        self.persist_active(record)
    }

    /// Repairs a missing active copy after reconnecting to a peer. The new
    /// session must authenticate the same certified identities, but its
    /// ephemeral transcript binding may differ from that of the record.
    pub fn reconcile(
        &mut self,
        session: &AuthenticatedPairingSession,
        identity: &DeviceIdentity,
        record: &PairingRecord,
    ) -> (result: Result<(), SyncError>)
        ensures
            (result, final(self)@) == old(self)@.accepted(session@, identity@, record@, true),
    {
        proof {
            reveal(StoreView::accepted);
        }
        validate_session_identity(session, identity)?;
        record.validate_record(
            session,
            identity,
            &self.root,
            self.now,
            Demands { complete: true, bound: false, at_authorization: true },
        )?;
        self.persist_active(record)
    }
}

impl ActivePairingLookup for PairingStore {
    fn has_active_pairing(&self, local_device_id: &str, peer_device_id: &str) -> (result: Result<
        bool,
        SyncError,
    >)
        ensures
            result == self@.active_between(local_device_id@, peer_device_id@),
    {
        PairingStore::has_active_pairing(self, local_device_id, peer_device_id)
    }
}

} // verus!
