//! Authenticated LAN announcements and the verifier that accepts each once.
use crate::codec::{
    append, be_bytes, be_bytes_len, be_bytes_of_be_value, be_bound, be_value, be_value_of_be_bytes,
    field, field_of_read_field, put_bytes, put_u16, put_u64, read_field, read_field_of_field, utf8,
    Cursor,
};
use crate::crypto;
use crate::crypto::{
    accepts_only, ed25519_key_valid, ed25519_public, ed25519_sign, ed25519_verifies, neutral_point,
};
use crate::error::{outcome, SyncError};
use crate::identity::{device_id_of, DeviceIdentity};
use crate::protocol_v3::{
    certificate_bytes, certificate_canonical, certificate_error, certificate_length,
    certificate_parsed, certificate_round_trip, certificate_shape_error, certificate_signed,
    protocol_magic_lengths, CertificateView, DeviceCertificate, PinnedOmarchyRoot, RootView,
    DISCOVERY_MAGIC, MAX_CERTIFICATE_BYTES, MAX_DISCOVERY_AGE_SECONDS, MAX_DISCOVERY_BYTES,
    MAX_DISCOVERY_FUTURE_SECONDS, MAX_REPLAY_ENTRIES, PROTOCOL_VERSION,
};
use crate::text::{array_32, array_64, bytes_eq};
use vstd::prelude::*;

verus! {

/// What an announcement says.
#[verifier::ext_equal]
pub struct AnnouncementView {
    pub protocol_version: u8,
    pub certificate: CertificateView,
    pub nonce: Seq<u8>,
    pub timestamp: u64,
    pub port: u16,
    pub signature: Seq<u8>,
}

/// The canonical bytes covered by the device signature: every field, the
/// certificate included.
pub open spec fn announcement_signed(a: AnnouncementView) -> Seq<u8> {
    utf8(DISCOVERY_MAGIC@) + seq![a.protocol_version] + field(certificate_bytes(a.certificate))
        + a.nonce + be_bytes(a.timestamp as nat, 8) + be_bytes(a.port as nat, 2)
}

/// The canonical bytes of a whole announcement.
pub open spec fn announcement_bytes(a: AnnouncementView) -> Seq<u8> {
    announcement_signed(a) + a.signature
}

/// Why an announcement cannot be encoded.
pub open spec fn announcement_encode_error(a: AnnouncementView) -> Option<SyncError> {
    if a.protocol_version != PROTOCOL_VERSION {
        Some(SyncError::DiscoveryVersion)
    } else {
        certificate_shape_error(a.certificate)
    }
}

/// The announcement that bytes encode.
pub open spec fn announcement_parsed(b: Seq<u8>) -> Result<AnnouncementView, SyncError> {
    if b.len() > MAX_DISCOVERY_BYTES {
        Err(SyncError::DiscoveryTooLarge)
    } else if b.len() < 20 {
        Err(SyncError::Truncated)
    } else if b.subrange(0, 20) != utf8(DISCOVERY_MAGIC@) {
        Err(SyncError::DiscoveryMagic)
    } else if b.len() < 21 {
        Err(SyncError::Truncated)
    } else {
        match read_field(b, 21, MAX_CERTIFICATE_BYTES as int) {
            Err(error) => Err(error),
            Ok((cert_bytes, p)) => match certificate_parsed(cert_bytes) {
                Err(error) => Err(error),
                Ok(certificate) => if b.len() < p + 42 {
                    Err(SyncError::Truncated)
                } else if be_value(b.subrange(p + 40, p + 42)) == 0 {
                    Err(SyncError::DiscoveryPortZero)
                } else if b.len() < p + 106 {
                    Err(SyncError::Truncated)
                } else if b.len() > p + 106 {
                    Err(SyncError::TrailingBytes)
                } else {
                    Ok(
                        AnnouncementView {
                            protocol_version: b[20],
                            certificate,
                            nonce: b.subrange(p, p + 32),
                            timestamp: be_value(b.subrange(p + 32, p + 40)) as u64,
                            port: be_value(b.subrange(p + 40, p + 42)) as u16,
                            signature: b.subrange(p + 42, p + 106),
                        },
                    )
                },
            },
        }
    }
}

/// An authenticated LAN announcement. The certificate and every routing field
/// are included in the device signature.
#[derive(Debug, PartialEq, Eq)]
pub struct DiscoveryAnnouncement {
    pub protocol_version: u8,
    pub certificate: DeviceCertificate,
    pub nonce: [u8; 32],
    pub timestamp: u64,
    pub port: u16,
    pub signature: [u8; 64],
}

impl View for DiscoveryAnnouncement {
    type V = AnnouncementView;

    open spec fn view(&self) -> AnnouncementView {
        AnnouncementView {
            protocol_version: self.protocol_version,
            certificate: self.certificate@,
            nonce: self.nonce@,
            timestamp: self.timestamp,
            port: self.port,
            signature: self.signature@,
        }
    }
}

impl Clone for DiscoveryAnnouncement {
    fn clone(&self) -> (result: Self)
        ensures
            result@ == self@,
    {
        DiscoveryAnnouncement {
            protocol_version: self.protocol_version,
            certificate: self.certificate.clone(),
            nonce: self.nonce,
            timestamp: self.timestamp,
            port: self.port,
            signature: self.signature,
        }
    }
}

/// The announcement an identity makes, before it is signed.
pub open spec fn announcement_of(
    certificate: CertificateView,
    nonce: Seq<u8>,
    timestamp: u64,
    port: u16,
) -> AnnouncementView {
    AnnouncementView {
        protocol_version: PROTOCOL_VERSION,
        certificate,
        nonce,
        timestamp,
        port,
        signature: Seq::new(64, |i: int| 0u8),
    }
}

impl DiscoveryAnnouncement {
    /// Signs an announcement. The certificate must belong to the identity and
    /// the port must not be zero.
    pub fn sign(
        identity: &DeviceIdentity,
        certificate: DeviceCertificate,
        nonce: [u8; 32],
        timestamp: u64,
        port: u16,
    ) -> (result: Result<Self, SyncError>)
        ensures
            ({
                let a = announcement_of(certificate@, nonce@, timestamp, port);
                outcome(result) == (if certificate@.public_key != ed25519_public(identity@)
                    || certificate@.device_id != device_id_of(ed25519_public(identity@)) {
                    Err::<AnnouncementView, SyncError>(SyncError::DiscoveryForeignCertificate)
                } else if port == 0 {
                    Err(SyncError::DiscoveryPortZero)
                } else {
                    match certificate_shape_error(certificate@) {
                        Some(error) => Err(error),
                        None => Ok(
                            AnnouncementView {
                                signature: ed25519_sign(identity@, announcement_signed(a)),
                                ..a
                            },
                        ),
                    }
                })
            }),
            result matches Ok(a) ==> a@.signature.subrange(0, 32) != neutral_point()
                ==> ed25519_verifies(a@.certificate.public_key, announcement_signed(a@), a@.signature),
    {
        if !bytes_eq(certificate.public_key.as_slice(), identity.public_key().as_slice())
            || certificate.device_id != identity.device_id() {
            return Err(SyncError::DiscoveryForeignCertificate);
        }
        if port == 0 {
            return Err(SyncError::DiscoveryPortZero);
        }
        let unsigned = DiscoveryAnnouncement {
            protocol_version: PROTOCOL_VERSION,
            certificate,
            nonce,
            timestamp,
            port,
            signature: [0u8; 64],
        };
        assert(unsigned@ =~= announcement_of(certificate@, nonce@, timestamp, port));
        let signed: Vec<u8> = unsigned.signing_bytes()?;
        let signature: [u8; 64] = identity.sign(signed.as_slice());
        Ok(DiscoveryAnnouncement { signature, ..unsigned })
    }

    /// Canonical bytes covered by the device signature.
    pub fn signing_bytes(&self) -> (result: Result<Vec<u8>, SyncError>)
        ensures
            outcome(result) == (match announcement_encode_error(self@) {
                Some(error) => Err::<Seq<u8>, SyncError>(error),
                None => Ok(announcement_signed(self@)),
            }),
            result matches Ok(bytes) ==> bytes@.len() <= 357,
    {
        if self.protocol_version != PROTOCOL_VERSION {
            return Err(SyncError::DiscoveryVersion);
        }
        let cert: Vec<u8> = self.certificate.to_bytes()?;
        let mut out: Vec<u8> = Vec::new();
        append(&mut out, DISCOVERY_MAGIC.as_bytes());
        out.push(self.protocol_version);
        proof {
            certificate_length(self.certificate@);
        }
        put_bytes(&mut out, cert.as_slice(), MAX_CERTIFICATE_BYTES)?;
        append(&mut out, self.nonce.as_slice());
        put_u64(&mut out, self.timestamp);
        put_u16(&mut out, self.port);
        assert(out@ =~= announcement_signed(self@));
        proof {
            protocol_magic_lengths();
            be_bytes_len(cert@.len(), 2);
            be_bytes_len(self.timestamp as nat, 8);
            be_bytes_len(self.port as nat, 2);
        }
        Ok(out)
    }

    pub fn to_bytes(&self) -> (result: Result<Vec<u8>, SyncError>)
        ensures
            outcome(result) == (match announcement_encode_error(self@) {
                Some(error) => Err::<Seq<u8>, SyncError>(error),
                None => Ok(announcement_bytes(self@)),
            }),
            result matches Ok(bytes) ==> bytes@.len() <= MAX_DISCOVERY_BYTES,
    {
        let mut out: Vec<u8> = self.signing_bytes()?;
        append(&mut out, self.signature.as_slice());
        if out.len() > MAX_DISCOVERY_BYTES {
            return Err(SyncError::DiscoveryTooLarge);
        }
        Ok(out)
    }

    pub fn from_bytes(bytes: &[u8]) -> (result: Result<Self, SyncError>)
        ensures
            outcome(result) == announcement_parsed(bytes@),
    {
        if bytes.len() > MAX_DISCOVERY_BYTES {
            return Err(SyncError::DiscoveryTooLarge);
        }
        proof {
            protocol_magic_lengths();
        }
        let mut c = Cursor::new(bytes);
        let magic = c.take(20)?;
        if !bytes_eq(magic, DISCOVERY_MAGIC.as_bytes()) {
            return Err(SyncError::DiscoveryMagic);
        }
        let protocol_version: u8 = c.u8()?;
        let certificate = DeviceCertificate::from_bytes(c.bytes(MAX_CERTIFICATE_BYTES)?)?;
        let nonce: [u8; 32] = array_32(c.take(32)?);
        let timestamp: u64 = c.u64()?;
        let port: u16 = c.u16()?;
        if port == 0 {
            return Err(SyncError::DiscoveryPortZero);
        }
        let signature: [u8; 64] = array_64(c.take(64)?);
        c.finish()?;
        Ok(
            DiscoveryAnnouncement {
                protocol_version,
                certificate,
                nonce,
                timestamp,
                port,
                signature,
            },
        )
    }
}

/// Where the parts of an encoded announcement stand.
proof fn announcement_layout(
    magic: Seq<u8>,
    version: u8,
    cert: Seq<u8>,
    nonce: Seq<u8>,
    timestamp: Seq<u8>,
    port: Seq<u8>,
    signature: Seq<u8>,
)
    requires
        magic.len() == 20,
        nonce.len() == 32,
        timestamp.len() == 8,
        port.len() == 2,
        signature.len() == 64,
    ensures
        ({
            let b = magic + seq![version] + cert + nonce + timestamp + port + signature;
            let p = 21 + cert.len() as int;
            &&& b.len() == p + 106
            &&& b.subrange(0, 20) == magic
            &&& b[20] == version
            &&& b.subrange(21, p) == cert
            &&& b.subrange(p, p + 32) == nonce
            &&& b.subrange(p + 32, p + 40) == timestamp
            &&& b.subrange(p + 40, p + 42) == port
            &&& b.subrange(p + 42, p + 106) == signature
        }),
{
    let b = magic + seq![version] + cert + nonce + timestamp + port + signature;
    let p = 21 + cert.len() as int;
    assert(b.subrange(0, 20) =~= magic);
    assert(b.subrange(21, p) =~= cert);
    assert(b.subrange(p, p + 32) =~= nonce);
    assert(b.subrange(p + 32, p + 40) =~= timestamp);
    assert(b.subrange(p + 40, p + 42) =~= port);
    assert(b.subrange(p + 42, p + 106) =~= signature);
}

/// An announcement that can be encoded and has a port is unchanged when it is
/// encoded and parsed again.
pub proof fn announcement_round_trip(a: AnnouncementView)
    requires
        announcement_encode_error(a) is None,
        a.port != 0,
        a.certificate.public_key.len() == 32,
        a.certificate.signature.len() == 64,
        a.nonce.len() == 32,
        a.signature.len() == 64,
    ensures
        announcement_parsed(announcement_bytes(a)) == Ok::<AnnouncementView, SyncError>(a),
{
    let b = announcement_bytes(a);
    let cert = certificate_bytes(a.certificate);
    let p = 23 + cert.len() as int;
    certificate_length(a.certificate);
    certificate_round_trip(a.certificate);
    protocol_magic_lengths();
    be_bytes_len(cert.len(), 2);
    assert(be_bound(8) == 0x1_0000_0000_0000_0000 && be_bound(2) == 0x1_0000) by {
        reveal_with_fuel(be_bound, 9);
    }
    be_value_of_be_bytes(a.timestamp as nat, 8);
    be_value_of_be_bytes(a.port as nat, 2);
    announcement_layout(
        utf8(DISCOVERY_MAGIC@),
        a.protocol_version,
        field(cert),
        a.nonce,
        be_bytes(a.timestamp as nat, 8),
        be_bytes(a.port as nat, 2),
        a.signature,
    );
    read_field_of_field(b, 21, cert, MAX_CERTIFICATE_BYTES as int);
}

/// Bytes that parse as an announcement are its only encoding.
pub proof fn announcement_canonical(b: Seq<u8>)
    requires
        announcement_parsed(b) is Ok,
    ensures
        announcement_bytes(announcement_parsed(b)->Ok_0) == b,
        announcement_parsed(b)->Ok_0.port != 0,
        announcement_parsed(b)->Ok_0.nonce.len() == 32,
        announcement_parsed(b)->Ok_0.signature.len() == 64,
        certificate_shape_error(announcement_parsed(b)->Ok_0.certificate) is None,
{
    let a = announcement_parsed(b)->Ok_0;
    let (cert, p) = read_field(b, 21, MAX_CERTIFICATE_BYTES as int)->Ok_0;
    protocol_magic_lengths();
    field_of_read_field(b, 21, MAX_CERTIFICATE_BYTES as int);
    certificate_canonical(cert);
    assert(be_bound(8) == 0x1_0000_0000_0000_0000 && be_bound(2) == 0x1_0000) by {
        reveal_with_fuel(be_bound, 9);
    }
    be_bytes_of_be_value(b.subrange(p + 32, p + 40));
    be_bytes_of_be_value(b.subrange(p + 40, p + 42));
    let parts = b.subrange(0, 20) + seq![b[20]] + b.subrange(21, p) + b.subrange(p, p + 32)
        + b.subrange(p + 32, p + 40) + b.subrange(p + 40, p + 42) + b.subrange(p + 42, p + 106);
    assert(parts =~= b);
    assert(announcement_bytes(a) =~= parts);
}

// ---------------------------------------------------------------------------
// The verifier.
// ---------------------------------------------------------------------------
/// What is known of a device whose announcement was accepted.
pub struct DiscoveredView {
    pub device_id: Seq<char>,
    pub device_name: Seq<char>,
    pub public_key: Seq<u8>,
    pub timestamp: u64,
    pub port: u16,
}

/// A device whose announcement was accepted.
#[derive(Debug, PartialEq, Eq)]
pub struct VerifiedDiscovery {
    pub device_id: String,
    pub device_name: String,
    pub public_key: [u8; 32],
    pub timestamp: u64,
    pub port: u16,
}

impl View for VerifiedDiscovery {
    type V = DiscoveredView;

    open spec fn view(&self) -> DiscoveredView {
        DiscoveredView {
            device_id: self.device_id@,
            device_name: self.device_name@,
            public_key: self.public_key@,
            timestamp: self.timestamp,
            port: self.port,
        }
    }
}

impl Clone for VerifiedDiscovery {
    fn clone(&self) -> (result: Self)
        ensures
            result@ == self@,
    {
        VerifiedDiscovery {
            device_id: self.device_id.clone(),
            device_name: self.device_name.clone(),
            public_key: self.public_key,
            timestamp: self.timestamp,
            port: self.port,
        }
    }
}

/// One accepted nonce.
#[verifier::ext_equal]
pub struct ReplayView {
    pub nonce: Seq<u8>,
    pub accepted_at: u64,
    pub announced_at: u64,
}

/// The state of a verifier: its root, its freshness window in seconds, the
/// most nonces it remembers, and the nonces that it remembers.
pub struct VerifierView {
    pub root: RootView,
    pub max_age: u64,
    pub max_future: u64,
    pub limit: nat,
    pub seen: Seq<ReplayView>,
}

/// Seconds from `then` to `now`, none when `then` lies ahead.
pub open spec fn elapsed(now: u64, then: u64) -> int {
    if now >= then {
        now - then
    } else {
        0
    }
}

/// The sum of two spans, as far as it can be represented.
pub open spec fn span_sum(a: u64, b: u64) -> int {
    if a + b > u64::MAX {
        u64::MAX as int
    } else {
        a + b
    }
}

impl VerifierView {
    /// Whether a remembered nonce still lies within the freshness horizon.
    pub open spec fn retains(self, entry: ReplayView, now: u64) -> bool {
        elapsed(now, entry.accepted_at) <= span_sum(self.max_age, self.max_future) && elapsed(
            now,
            entry.announced_at,
        ) <= self.max_age
    }

    /// The nonces that are still remembered at `now`.
    pub open spec fn pruned(self, now: u64) -> Seq<ReplayView> {
        self.seen.filter(|entry: ReplayView| self.retains(entry, now))
    }

    /// No nonce is remembered twice, and no more nonces are remembered than the
    /// limit allows.
    pub open spec fn wf(self) -> bool {
        &&& self.seen.len() <= self.limit
        &&& nonces_distinct(self.seen)
    }

    /// Why an announcement is not accepted, its nonce left aside.
    pub open spec fn announcement_error(self, a: AnnouncementView, now: u64) -> Option<SyncError> {
        if a.protocol_version != PROTOCOL_VERSION {
            Some(SyncError::DiscoveryDowngraded)
        } else {
            match certificate_error(a.certificate, self.root, now) {
                Some(error) => Some(error),
                None => if a.timestamp > span_sum(now, self.max_future) {
                    Some(SyncError::DiscoveryFromFuture)
                } else if elapsed(now, a.timestamp) > self.max_age {
                    Some(SyncError::DiscoveryStale)
                } else if !ed25519_key_valid(a.certificate.public_key) {
                    Some(SyncError::InvalidPublicKey)
                } else if !ed25519_verifies(
                    a.certificate.public_key,
                    announcement_signed(a),
                    a.signature,
                ) {
                    Some(SyncError::DiscoverySignature)
                } else {
                    None
                },
            }
        }
    }

    /// What the verifier answers to a packet.
    pub open spec fn answer(self, bytes: Seq<u8>, now: u64) -> Result<DiscoveredView, SyncError> {
        match announcement_parsed(bytes) {
            Err(error) => Err(error),
            Ok(a) => match self.announcement_error(a, now) {
                Some(error) => Err(error),
                None => if remembers(self.pruned(now), a.nonce) {
                    Err(SyncError::DiscoveryReplayed)
                } else if self.pruned(now).len() >= self.limit {
                    Err(SyncError::ReplayCacheFull)
                } else {
                    Ok(discovered(a))
                },
            },
        }
    }

    /// The verifier after a packet: expired nonces are gone, and the nonce of
    /// an accepted announcement is remembered.
    pub open spec fn after(self, bytes: Seq<u8>, now: u64) -> VerifierView {
        VerifierView {
            seen: if self.answer(bytes, now) is Ok {
                let a = announcement_parsed(bytes)->Ok_0;
                self.pruned(now).push(
                    ReplayView {
                        nonce: a.nonce,
                        accepted_at: now,
                        announced_at: a.timestamp,
                    },
                )
            } else {
                self.pruned(now)
            },
            ..self
        }
    }
}

/// Whether a nonce is among the remembered ones, whichever device sent it.
pub open spec fn remembers(seen: Seq<ReplayView>, nonce: Seq<u8>) -> bool {
    exists|i: int| 0 <= i < seen.len() && (#[trigger] seen[i]).nonce == nonce
}

/// What is known of the device that made an announcement.
pub open spec fn discovered(a: AnnouncementView) -> DiscoveredView {
    DiscoveredView {
        device_id: a.certificate.device_id,
        device_name: a.certificate.device_name,
        public_key: a.certificate.public_key,
        timestamp: a.timestamp,
        port: a.port,
    }
}

/// One accepted nonce.
struct ReplayEntry {
    nonce: [u8; 32],
    accepted_at: u64,
    announced_at: u64,
}

impl ReplayEntry {
    spec fn model(&self) -> ReplayView {
        ReplayView {
            nonce: self.nonce@,
            accepted_at: self.accepted_at,
            announced_at: self.announced_at,
        }
    }
}

/// Verifies v3 announcements and rejects a nonce that has already been
/// accepted by this verifier.
pub struct DiscoveryVerifier {
    root: PinnedOmarchyRoot,
    max_age: u64,
    max_future: u64,
    seen: Vec<ReplayEntry>,
    max_replay_entries: usize,
}

impl View for DiscoveryVerifier {
    type V = VerifierView;

    closed spec fn view(&self) -> VerifierView {
        VerifierView {
            root: self.root@,
            max_age: self.max_age,
            max_future: self.max_future,
            limit: self.max_replay_entries as nat,
            seen: self.seen@.map_values(|entry: ReplayEntry| entry.model()),
        }
    }
}

/// Seconds from `then` to `now`, none when `then` lies ahead.
fn seconds_between(now: u64, then: u64) -> (result: u64)
    ensures
        result == elapsed(now, then),
{
    if now >= then {
        now - then
    } else {
        0
    }
}

/// The sum of two spans, as far as it can be represented.
fn add_spans(a: u64, b: u64) -> (result: u64)
    ensures
        result == span_sum(a, b),
{
    if a > u64::MAX - b {
        u64::MAX
    } else {
        a + b
    }
}

impl DiscoveryVerifier {
    /// A verifier with the default freshness window.
    pub fn new(root: PinnedOmarchyRoot) -> (result: Self)
        ensures
            result@ == (VerifierView {
                root: root@,
                max_age: MAX_DISCOVERY_AGE_SECONDS,
                max_future: MAX_DISCOVERY_FUTURE_SECONDS,
                limit: MAX_REPLAY_ENTRIES as nat,
                seen: Seq::empty(),
            }),
            result@.wf(),
    {
        Self::with_window(root, MAX_DISCOVERY_AGE_SECONDS, MAX_DISCOVERY_FUTURE_SECONDS)
    }

    /// A verifier that accepts announcements up to `max_age` seconds old and
    /// up to `max_future` seconds ahead.
    pub fn with_window(root: PinnedOmarchyRoot, max_age: u64, max_future: u64) -> (result: Self)
        ensures
            result@ == (VerifierView {
                root: root@,
                max_age,
                max_future,
                limit: MAX_REPLAY_ENTRIES as nat,
                seen: Seq::empty(),
            }),
            result@.wf(),
    {
        let result = DiscoveryVerifier {
            root,
            max_age,
            max_future,
            seen: Vec::new(),
            max_replay_entries: MAX_REPLAY_ENTRIES,
        };
        assert(result@.seen =~= Seq::empty());
        result
    }

    /// A verifier that remembers at most `max_replay_entries` nonces.
    pub fn with_replay_limit(
        root: PinnedOmarchyRoot,
        max_age: u64,
        max_future: u64,
        max_replay_entries: usize,
    ) -> (result: Result<Self, SyncError>)
        ensures
            outcome(result) == (if max_replay_entries == 0 {
                Err::<VerifierView, SyncError>(SyncError::ReplayLimitZero)
            } else {
                Ok(
                    VerifierView {
                        root: root@,
                        max_age,
                        max_future,
                        limit: max_replay_entries as nat,
                        seen: Seq::empty(),
                    },
                )
            }),
            result matches Ok(verifier) ==> verifier@.wf(),
    {
        if max_replay_entries == 0 {
            return Err(SyncError::ReplayLimitZero);
        }
        let result = DiscoveryVerifier {
            root,
            max_age,
            max_future,
            seen: Vec::new(),
            max_replay_entries,
        };
        assert(result@.seen =~= Seq::empty());
        Ok(result)
    }

    /// Accepts a packet whose announcement is authentic, fresh and new, and
    /// remembers its nonce.
    pub fn verify(&mut self, bytes: &[u8], now: u64) -> (result: Result<
        VerifiedDiscovery,
        SyncError,
    >)
        ensures
            outcome(result) == old(self)@.answer(bytes@, now),
            final(self)@ == old(self)@.after(bytes@, now),
            old(self)@.wf() ==> final(self)@.wf(),
    {
        self.prune_replay(now);
        proof {
            filter_keeps_distinct(
                old(self)@.seen,
                |entry: ReplayView| old(self)@.retains(entry, now),
            );
        }
        let announcement = DiscoveryAnnouncement::from_bytes(bytes)?;
        if announcement.protocol_version != PROTOCOL_VERSION {
            return Err(SyncError::DiscoveryDowngraded);
        }
        announcement.certificate.verify(&self.root, now)?;
        if announcement.timestamp > add_spans(now, self.max_future) {
            return Err(SyncError::DiscoveryFromFuture);
        }
        if seconds_between(now, announcement.timestamp) > self.max_age {
            return Err(SyncError::DiscoveryStale);
        }
        if !crypto::key_valid(&announcement.certificate.public_key) {
            return Err(SyncError::InvalidPublicKey);
        }
        let signed: Vec<u8> = announcement.signing_bytes()?;
        if !crypto::verify(
            &announcement.certificate.public_key,
            signed.as_slice(),
            &announcement.signature,
        ) {
            return Err(SyncError::DiscoverySignature);
        }
        if self.has_seen(&announcement.nonce) {
            return Err(SyncError::DiscoveryReplayed);
        }
        if self.seen.len() >= self.max_replay_entries {
            return Err(SyncError::ReplayCacheFull);
        }
        self.seen.push(
            ReplayEntry {
                nonce: announcement.nonce,
                accepted_at: now,
                announced_at: announcement.timestamp,
            },
        );
        assert(self@.seen =~= old(self)@.after(bytes@, now).seen);
        Ok(
            VerifiedDiscovery {
                device_id: announcement.certificate.device_id,
                device_name: announcement.certificate.device_name,
                public_key: announcement.certificate.public_key,
                timestamp: announcement.timestamp,
                port: announcement.port,
            },
        )
    }

    /// Whether a nonce is remembered.
    fn has_seen(&self, nonce: &[u8; 32]) -> (result: bool)
        ensures
            result == remembers(self@.seen, nonce@),
    {
        let mut i: usize = 0;
        while i < self.seen.len()
            invariant
                i <= self.seen@.len(),
                self@.seen.len() == self.seen@.len(),
                forall|j: int| 0 <= j < i ==> (#[trigger] self@.seen[j]).nonce != nonce@,
            decreases self.seen@.len() - i,
        {
            let entry = &self.seen[i];
            assert(self@.seen[i as int] == entry.model());
            if bytes_eq(entry.nonce.as_slice(), nonce.as_slice()) {
                return true;
            }
            i = i + 1;
        }
        false
    }

    /// Forgets the nonces that lie outside the freshness horizon.
    fn prune_replay(&mut self, now: u64)
        ensures
            final(self)@ == (VerifierView { seen: old(self)@.pruned(now), ..old(self)@ }),
            final(self).root == old(self).root,
    {
        let retention: u64 = add_spans(self.max_age, self.max_future);
        let ghost view = self@;
        let ghost keep = |entry: ReplayView| view.retains(entry, now);
        let mut kept: Vec<ReplayEntry> = Vec::new();
        let mut i: usize = 0;
        assert(view.seen.take(0).filter(keep) =~= Seq::empty()) by {
            reveal(Seq::filter);
        }
        while i < self.seen.len()
            invariant
                i <= self.seen@.len(),
                *self == *old(self),
                view == self@,
                view.seen == self.seen@.map_values(|entry: ReplayEntry| entry.model()),
                keep == (|entry: ReplayView| view.retains(entry, now)),
                retention == span_sum(view.max_age, view.max_future),
                self.max_age == view.max_age,
                kept@.map_values(|entry: ReplayEntry| entry.model()) == view.seen.take(
                    i as int,
                ).filter(keep),
            decreases self.seen@.len() - i,
        {
            let entry = &self.seen[i];
            assert(view.seen[i as int] == entry.model());
            proof {
                reveal(Seq::filter);
                assert(view.seen.take(i + 1).drop_last() =~= view.seen.take(i as int));
                assert(view.seen.take(i + 1).last() == entry.model());
            }
            let ghost before = kept@;
            if seconds_between(now, entry.accepted_at) <= retention && seconds_between(
                now,
                entry.announced_at,
            ) <= self.max_age {
                kept.push(
                    ReplayEntry {
                        nonce: entry.nonce,
                        accepted_at: entry.accepted_at,
                        announced_at: entry.announced_at,
                    },
                );
                proof {
                    assert(kept@.map_values(|entry: ReplayEntry| entry.model()) =~= before.map_values(
                        |entry: ReplayEntry| entry.model(),
                    ).push(entry.model()));
                }
            }
            i = i + 1;
        }
        assert(view.seen.take(view.seen.len() as int) =~= view.seen);
        self.seen = kept;
        assert(self@.seen =~= view.pruned(now));
    }
}

/// Whether no nonce is remembered twice.
pub open spec fn nonces_distinct(seen: Seq<ReplayView>) -> bool {
    forall|i: int, j: int|
        0 <= i < j < seen.len() ==> (#[trigger] seen[i]).nonce != (#[trigger] seen[j]).nonce
}

/// Filtering keeps no more than there was, and only what there was.
proof fn filter_keeps_distinct(seen: Seq<ReplayView>, keep: spec_fn(ReplayView) -> bool)
    ensures
        seen.filter(keep).len() <= seen.len(),
        forall|i: int|
            0 <= i < seen.filter(keep).len() ==> seen.contains(#[trigger] seen.filter(keep)[i]),
        nonces_distinct(seen) ==> nonces_distinct(seen.filter(keep)),
    decreases seen.len(),
{
    reveal(Seq::filter);
    if seen.len() > 0 {
        let rest = seen.drop_last();
        filter_keeps_distinct(rest, keep);
        let kept = rest.filter(keep);
        assert forall|i: int| 0 <= i < seen.filter(keep).len() implies seen.contains(
            #[trigger] seen.filter(keep)[i],
        ) by {
            if i < kept.len() {
                assert(rest.contains(kept[i]));
                let k = choose|k: int| 0 <= k < rest.len() && rest[k] == kept[i];
                assert(seen[k] == kept[i]);
            } else {
                assert(seen[seen.len() - 1] == seen.filter(keep)[i]);
            }
        }
        if nonces_distinct(seen) {
            assert(nonces_distinct(rest)) by {
                assert forall|i: int, j: int| 0 <= i < j < rest.len() implies (
                #[trigger] rest[i]).nonce != (#[trigger] rest[j]).nonce by {
                    assert(seen[i] == rest[i] && seen[j] == rest[j]);
                }
            }
            assert forall|i: int, j: int| 0 <= i < j < seen.filter(keep).len() implies (
            #[trigger] seen.filter(keep)[i]).nonce != (#[trigger] seen.filter(keep)[j]).nonce by {
                if j == kept.len() {
                    assert(rest.contains(kept[i]));
                    let k = choose|k: int| 0 <= k < rest.len() && rest[k] == kept[i];
                    assert(seen[k] == kept[i] && seen[seen.len() - 1] == seen.filter(keep)[j]);
                }
            }
        }
    }
}

// ---------------------------------------------------------------------------
// What the verifier guarantees.
// ---------------------------------------------------------------------------
/// Whatever is accepted was announced under a certificate that the pinned root
/// signed and that is valid now, by the holder of the certified key, in this
/// protocol version, within the freshness window, and with a nonce that is not
/// remembered.
pub proof fn accepted_is_authentic(v: VerifierView, bytes: Seq<u8>, now: u64)
    requires
        v.answer(bytes, now) is Ok,
    ensures
        announcement_parsed(bytes) is Ok,
        ({
            let a = announcement_parsed(bytes)->Ok_0;
            &&& v.answer(bytes, now) == Ok::<DiscoveredView, SyncError>(discovered(a))
            &&& a.protocol_version == PROTOCOL_VERSION
            &&& a.port != 0
            &&& a.certificate.issuer_key_id == v.root.key_id
            &&& ed25519_verifies(
                v.root.public_key,
                certificate_signed(a.certificate),
                a.certificate.signature,
            )
            &&& a.certificate.not_before <= now < a.certificate.not_after
            &&& a.certificate.device_id == device_id_of(a.certificate.public_key)
            &&& ed25519_verifies(
                a.certificate.public_key,
                announcement_signed(a),
                a.signature,
            )
            &&& a.timestamp <= now + v.max_future
            &&& now <= a.timestamp + v.max_age
            &&& !remembers(v.pruned(now), a.nonce)
        }),
{
    announcement_canonical(bytes);
}

/// An announcement without a fault is accepted in its encoded form, as long as
/// its nonce is not remembered and there is room to remember it.
pub proof fn faultless_is_accepted(v: VerifierView, a: AnnouncementView, now: u64)
    requires
        v.announcement_error(a, now) is None,
        a.port != 0,
        a.certificate.public_key.len() == 32,
        a.certificate.signature.len() == 64,
        a.nonce.len() == 32,
        a.signature.len() == 64,
        !remembers(v.pruned(now), a.nonce),
        v.pruned(now).len() < v.limit,
    ensures
        v.answer(announcement_bytes(a), now) == Ok::<DiscoveredView, SyncError>(discovered(a)),
{
    announcement_round_trip(a);
}

/// When as many nonces are remembered as the limit allows, nothing is
/// accepted: no remembered nonce is dropped to make room.
pub proof fn full_cache_fails_closed(v: VerifierView, bytes: Seq<u8>, now: u64)
    requires
        v.pruned(now).len() >= v.limit,
    ensures
        v.answer(bytes, now) is Err,
        v.after(bytes, now).seen == v.pruned(now),
{
}

/// The verifier after a series of packets, each with its time of arrival.
pub open spec fn after_all(v: VerifierView, packets: Seq<(Seq<u8>, u64)>) -> VerifierView
    decreases packets.len(),
{
    if packets.len() == 0 {
        v
    } else {
        let (bytes, now) = packets.last();
        after_all(v, packets.drop_last()).after(bytes, now)
    }
}

/// Whether an announcement made at `timestamp` is remembered, or is stale from
/// `horizon` on.
spec fn spent(
    v: VerifierView,
    nonce: Seq<u8>,
    timestamp: u64,
    horizon: u64,
) -> bool {
    ||| elapsed(horizon, timestamp) > v.max_age
    ||| exists|i: int|
        0 <= i < v.seen.len() && (#[trigger] v.seen[i]).nonce == nonce && v.seen[i].announced_at
            == timestamp && timestamp <= span_sum(v.seen[i].accepted_at, v.max_future)
}

/// An element that is to be kept is still there after filtering.
proof fn filter_keeps(seen: Seq<ReplayView>, keep: spec_fn(ReplayView) -> bool, i: int)
    requires
        0 <= i < seen.len(),
        keep(seen[i]),
    ensures
        exists|j: int| 0 <= j < seen.filter(keep).len() && #[trigger] seen.filter(keep)[j] == seen[i],
    decreases seen.len(),
{
    reveal(Seq::filter);
    let rest = seen.drop_last();
    if i < rest.len() {
        filter_keeps(rest, keep, i);
        let j = choose|j: int|
            0 <= j < rest.filter(keep).len() && #[trigger] rest.filter(keep)[j] == rest[i];
        assert(seen.filter(keep)[j] == seen[i]);
    } else {
        let j = rest.filter(keep).len() as int;
        assert(seen.filter(keep)[j] == seen[i]);
    }
}

/// Forgetting nonces keeps a spent announcement spent.
proof fn pruning_keeps_spent(
    v: VerifierView,
    nonce: Seq<u8>,
    timestamp: u64,
    now: u64,
    horizon: u64,
)
    requires
        spent(v, nonce, timestamp, horizon),
        now <= horizon,
    ensures
        spent(
            VerifierView { seen: v.pruned(now), ..v },
            nonce,
            timestamp,
            horizon,
        ),
{
    if elapsed(horizon, timestamp) <= v.max_age {
        let i = choose|i: int|
            0 <= i < v.seen.len() && (#[trigger] v.seen[i]).nonce == nonce
                && v.seen[i].announced_at == timestamp && timestamp <= span_sum(
                v.seen[i].accepted_at,
                v.max_future,
            );
        let keep = |entry: ReplayView| v.retains(entry, now);
        assert(keep(v.seen[i]));
        filter_keeps(v.seen, keep, i);
        let j = choose|j: int|
            0 <= j < v.seen.filter(keep).len() && #[trigger] v.seen.filter(keep)[j] == v.seen[i];
        let after = VerifierView { seen: v.pruned(now), ..v };
        assert(after.seen[j] == v.seen[i]);
    }
}

/// A spent announcement stays spent through any packet that arrives by the
/// horizon.
proof fn packet_keeps_spent(
    v: VerifierView,
    nonce: Seq<u8>,
    timestamp: u64,
    bytes: Seq<u8>,
    now: u64,
    horizon: u64,
)
    requires
        spent(v, nonce, timestamp, horizon),
        now <= horizon,
    ensures
        spent(v.after(bytes, now), nonce, timestamp, horizon),
{
    pruning_keeps_spent(v, nonce, timestamp, now, horizon);
    let pruned = VerifierView { seen: v.pruned(now), ..v };
    if elapsed(horizon, timestamp) <= v.max_age {
        let i = choose|i: int|
            0 <= i < pruned.seen.len() && (#[trigger] pruned.seen[i]).nonce == nonce
                && pruned.seen[i].announced_at == timestamp && timestamp <= span_sum(
                pruned.seen[i].accepted_at,
                v.max_future,
            );
        assert(v.after(bytes, now).seen[i] == pruned.seen[i]);
    }
}

/// A spent announcement stays spent through any packets that arrive by the
/// horizon.
proof fn packets_keep_spent(
    v: VerifierView,
    nonce: Seq<u8>,
    timestamp: u64,
    packets: Seq<(Seq<u8>, u64)>,
    horizon: u64,
)
    requires
        spent(v, nonce, timestamp, horizon),
        forall|i: int| 0 <= i < packets.len() ==> (#[trigger] packets[i]).1 <= horizon,
    ensures
        spent(after_all(v, packets), nonce, timestamp, horizon),
        after_all(v, packets).max_age == v.max_age,
    decreases packets.len(),
{
    if packets.len() > 0 {
        let rest = packets.drop_last();
        let (bytes, now) = packets.last();
        assert(packets[packets.len() - 1].1 <= horizon);
        assert forall|i: int| 0 <= i < rest.len() implies (#[trigger] rest[i]).1 <= horizon by {
            assert(rest[i] == packets[i]);
        }
        packets_keep_spent(v, nonce, timestamp, rest, horizon);
        packet_keeps_spent(
            after_all(v, rest),
            nonce,
            timestamp,
            bytes,
            now,
            horizon,
        );
    }
}

/// A nonce that was accepted is not accepted again from any device, whatever
/// packets come between, as long as the announcement that spent it would still
/// be fresh and none of the packets is dated later than the repetition.
pub proof fn nonce_accepted_once(
    v: VerifierView,
    bytes: Seq<u8>,
    now: u64,
    packets: Seq<(Seq<u8>, u64)>,
    other: Seq<u8>,
    later: u64,
)
    requires
        v.answer(bytes, now) is Ok,
        forall|i: int| 0 <= i < packets.len() ==> (#[trigger] packets[i]).1 <= later,
        elapsed(later, announcement_parsed(bytes)->Ok_0.timestamp) <= v.max_age,
        announcement_parsed(other) matches Ok(b) && b.nonce == announcement_parsed(
            bytes,
        )->Ok_0.nonce,
    ensures
        after_all(v.after(bytes, now), packets).answer(other, later) is Err,
{
    let a = announcement_parsed(bytes)->Ok_0;
    let first = v.after(bytes, now);
    assert(first.seen[v.pruned(now).len() as int].announced_at == a.timestamp);
    assert(spent(first, a.nonce, a.timestamp, later));
    packets_keep_spent(first, a.nonce, a.timestamp, packets, later);
    let last = after_all(first, packets);
    pruning_keeps_spent(last, a.nonce, a.timestamp, later, later);
    let pruned = VerifierView { seen: last.pruned(later), ..last };
    let i = choose|i: int|
        0 <= i < pruned.seen.len() && (#[trigger] pruned.seen[i]).nonce == a.nonce
            && pruned.seen[i].announced_at == a.timestamp && a.timestamp <= span_sum(
            pruned.seen[i].accepted_at,
            last.max_future,
        );
    assert(last.pruned(later)[i].nonce == a.nonce);
    assert(remembers(last.pruned(later), a.nonce));
}

/// A packet that was accepted is never accepted again, whatever packets come
/// between, as long as none of them is dated later than the repetition.
pub proof fn accepted_only_once(
    v: VerifierView,
    bytes: Seq<u8>,
    now: u64,
    packets: Seq<(Seq<u8>, u64)>,
    later: u64,
)
    requires
        v.answer(bytes, now) is Ok,
        forall|i: int| 0 <= i < packets.len() ==> (#[trigger] packets[i]).1 <= later,
    ensures
        after_all(v.after(bytes, now), packets).answer(bytes, later) is Err,
{
    let a = announcement_parsed(bytes)->Ok_0;
    let first = v.after(bytes, now);
    assert(first.seen[v.pruned(now).len() as int].announced_at == a.timestamp);
    assert(spent(first, a.nonce, a.timestamp, later));
    packets_keep_spent(first, a.nonce, a.timestamp, packets, later);
    if elapsed(later, a.timestamp) <= v.max_age {
        nonce_accepted_once(v, bytes, now, packets, bytes, later);
    }
}

/// What a device signature covers determines everything in an announcement but
/// the signature itself: the certificate, the nonce, the time and the port.
pub proof fn announcement_binds(a: AnnouncementView, b: AnnouncementView)
    requires
        announcement_encode_error(a) is None,
        announcement_encode_error(b) is None,
        a.port != 0,
        b.port != 0,
        a.certificate.public_key.len() == 32,
        a.certificate.signature.len() == 64,
        a.nonce.len() == 32,
        b.certificate.public_key.len() == 32,
        b.certificate.signature.len() == 64,
        b.nonce.len() == 32,
        announcement_signed(a) == announcement_signed(b),
    ensures
        a.protocol_version == b.protocol_version,
        a.certificate == b.certificate,
        a.nonce == b.nonce,
        a.timestamp == b.timestamp,
        a.port == b.port,
{
    let signature = Seq::new(64, |i: int| 0u8);
    let a1 = AnnouncementView { signature, ..a };
    let b1 = AnnouncementView { signature, ..b };
    announcement_round_trip(a1);
    announcement_round_trip(b1);
    assert(announcement_bytes(a1) == announcement_bytes(b1));
}

/// A packet that differs from an announcement in any byte is refused, where its
/// device key accepts only the signature of that announcement: no byte of a
/// packet is left out of what is signed or of the signature.
pub proof fn altered_announcements_are_refused(
    v: VerifierView,
    bytes: Seq<u8>,
    altered: Seq<u8>,
    now: u64,
)
    requires
        announcement_parsed(bytes) is Ok,
        altered != bytes,
        announcement_parsed(altered) matches Ok(b) ==> ({
            let a = announcement_parsed(bytes)->Ok_0;
            accepts_only(
                b.certificate.public_key,
                announcement_signed(a),
                a.signature,
                announcement_signed(b),
                b.signature,
            )
        }),
    ensures
        v.answer(altered, now) is Err,
{
    announcement_canonical(bytes);
    if announcement_parsed(altered) is Ok {
        announcement_canonical(altered);
    }
}

} // verus!
