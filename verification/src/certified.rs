//! Which certificates, roots, enrollments and announcements are accepted.
use crate::codec::utf8;
use crate::crypto::{ed25519_key_valid, ed25519_public, ed25519_sign, ed25519_verifies, sha256};
use crate::discovery::{
    announcement_bytes, announcement_parsed, announcement_round_trip, announcement_signed,
    remembers, AnnouncementView, DiscoveredView, ReplayView, VerifierView,
};
use crate::error::SyncError;
use crate::identity::device_id_of;
use crate::protocol_v3::{
    certificate_bytes, certificate_canonical, certificate_error, certificate_field_error,
    certificate_length, certificate_round_trip, certificate_shape_error, certificate_signed,
    root_of_bytes, root_of_path, CertificateView, PathFacts, RootView,
};
use crate::runtime_v3::{enrolled, CertificateFile, EnrollmentView};
use crate::text::{hex_is_lower_hex, hex_of_16_is_id, is_id, is_white_space, trimmed};
use vstd::prelude::*;
use vstd::utf8::*;

verus! {

// ---------------------------------------------------------------------------
// Forms.
// ---------------------------------------------------------------------------
/// A text is an ID exactly if it is thirty-two digits from `0` to `9` and from
/// `a` to `f`.
pub proof fn ids_are_lower_case_hexadecimal(text: Seq<char>)
    ensures
        is_id(text) <==> text.len() == 32 && forall|k: int|
            0 <= k < text.len() ==> ('0' <= #[trigger] text[k] <= '9') || ('a' <= text[k] <= 'f'),
{
    let digits = |t: Seq<char>|
        forall|k: int|
            0 <= k < t.len() ==> ('0' <= #[trigger] t[k] <= '9') || ('a' <= t[k] <= 'f');
    if text.len() == 32 && digits(text) {
        assert(is_ascii_chars(text));
        is_ascii_chars_encode_utf8(text);
        assert forall|k: int| 0 <= k < 32 implies crate::text::is_lower_hex(
            #[trigger] utf8(text)[k],
        ) by {
            assert(utf8(text)[k] == text[k] as u8);
        }
    }
    if is_id(text) {
        ascii_bytes_are_characters(utf8(text));
        encode_utf8_decode_utf8(text);
        assert forall|k: int| 0 <= k < text.len() implies ('0' <= #[trigger] text[k] <= '9') || (
        'a' <= text[k] <= 'f') by {
            assert(crate::text::is_lower_hex(utf8(text)[k]));
        }
    }
}

/// Bytes below 0x80 stand for one character each.
pub(crate) proof fn ascii_bytes_are_characters(bytes: Seq<u8>)
    requires
        forall|k: int| 0 <= k < bytes.len() ==> #[trigger] bytes[k] < 0x80,
    ensures
        valid_utf8(bytes),
        decode_utf8(bytes).len() == bytes.len(),
        forall|k: int|
            0 <= k < bytes.len() ==> #[trigger] decode_utf8(bytes)[k] == bytes[k] as char,
{
    let chars = Seq::new(bytes.len(), |k: int| bytes[k] as char);
    assert(is_ascii_chars(chars));
    is_ascii_chars_encode_utf8(chars);
    encode_utf8_valid_utf8(chars);
    encode_utf8_decode_utf8(chars);
    assert forall|k: int| 0 <= k < bytes.len() implies utf8(chars)[k] == bytes[k] by {
        assert(utf8(chars)[k] == chars[k] as u8);
    }
    assert(utf8(chars) =~= bytes);
}

/// The value of a lower-case hexadecimal digit.
pub open spec fn digit_value(c: char) -> int {
    if c <= '9' {
        c as int - '0' as int
    } else {
        c as int - 'a' as int + 10
    }
}

/// A DeviceID spells the first sixteen bytes of the SHA-256 digest of its key,
/// two digits for each, the higher one first.
pub proof fn device_ids_spell_digests(public_key: Seq<u8>, k: int)
    requires
        0 <= k < 16,
        sha256(public_key).len() == 32,
    ensures
        device_id_of(public_key).len() == 32,
        is_id(device_id_of(public_key)),
        digit_value(device_id_of(public_key)[2 * k]) * 16 + digit_value(
            device_id_of(public_key)[2 * k + 1],
        ) == sha256(public_key)[k],
{
    let head = sha256(public_key).subrange(0, 16);
    hex_of_16_is_id(head);
    hex_is_lower_hex(head);
    assert(head[k] == sha256(public_key)[k]);
    assert((2 * k) / 2 == k && (2 * k + 1) / 2 == k && (2 * k + 1) % 2 == 1 && (2 * k) % 2 == 0);
}

/// Whether a text is one to sixty-four letters, digits, hyphens and underscores.
pub open spec fn names_an_issuer(text: Seq<char>) -> bool {
    &&& 1 <= text.len() <= 64
    &&& forall|k: int|
        0 <= k < text.len() ==> {
            ||| '0' <= #[trigger] text[k] <= '9'
            ||| 'A' <= text[k] <= 'Z'
            ||| 'a' <= text[k] <= 'z'
            ||| text[k] == '-'
            ||| text[k] == '_'
        }
}

/// A text has the form of an issuer key id exactly if it is one to sixty-four
/// letters, digits, hyphens and underscores.
pub proof fn issuer_ids_are_names(text: Seq<char>)
    ensures
        crate::protocol_v3::is_issuer_key_id(text) <==> names_an_issuer(text),
{
    if names_an_issuer(text) {
        assert(is_ascii_chars(text));
        is_ascii_chars_encode_utf8(text);
        assert forall|k: int| 0 <= k < utf8(text).len() implies (crate::text::is_alphanumeric(
            #[trigger] utf8(text)[k],
        ) || utf8(text)[k] == 0x2d || utf8(text)[k] == 0x5f) by {
            assert(utf8(text)[k] == text[k] as u8);
        }
    }
    if crate::protocol_v3::is_issuer_key_id(text) {
        ascii_bytes_are_characters(utf8(text));
        encode_utf8_decode_utf8(text);
        assert forall|k: int| 0 <= k < text.len() implies {
            ||| '0' <= #[trigger] text[k] <= '9'
            ||| 'A' <= text[k] <= 'Z'
            ||| 'a' <= text[k] <= 'z'
            ||| text[k] == '-'
            ||| text[k] == '_'
        } by {
            let b = utf8(text)[k];
            assert(crate::text::is_alphanumeric(b) || b == 0x2d || b == 0x5f);
        }
    }
}

// ---------------------------------------------------------------------------
// Certificates.
// ---------------------------------------------------------------------------
/// A certificate is accepted under a root at every time of its validity window,
/// and at no other, where the root signed it, it names the root, it is of a
/// device whose DeviceID is that of its key, and it has a name of one to
/// sixty-four bytes. Nothing else is asked of it.
pub proof fn certificates_hold_for_their_window(c: CertificateView, root: RootView, now: u64)
    ensures
        certificate_error(c, root, now) is None <==> {
            &&& c.not_before <= now < c.not_after
            &&& is_id(c.device_id)
            &&& ed25519_key_valid(root.public_key)
            &&& ed25519_verifies(root.public_key, certificate_signed(c), c.signature)
            &&& c.issuer_key_id == root.key_id
            &&& c.device_id == device_id_of(c.public_key)
            &&& 1 <= utf8(c.device_name).len() <= 64
            &&& names_an_issuer(c.issuer_key_id)
        },
{
    issuer_ids_are_names(c.issuer_key_id);
}

/// A certificate that is not accepted is refused for the first of these: the
/// root is no key, a field is not of its form, the root did not sign it, it
/// names another root, it is of another key, it is too early, it is too late.
pub proof fn refused_certificates_say_why(c: CertificateView, root: RootView, now: u64)
    requires
        ed25519_key_valid(root.public_key),
        certificate_shape_error(c) is None,
    ensures
        ({
            let signed = ed25519_verifies(root.public_key, certificate_signed(c), c.signature);
            let error = certificate_error(c, root, now);
            &&& !signed ==> error == Some(SyncError::CertificateSignature)
            &&& signed && c.issuer_key_id != root.key_id ==> error == Some(
                SyncError::CertificateIssuerNotPinned,
            )
            &&& (signed && c.issuer_key_id == root.key_id && c.device_id != device_id_of(
                c.public_key,
            )) ==> error == Some(SyncError::CertificateBinding)
            &&& (signed && c.issuer_key_id == root.key_id && c.device_id == device_id_of(
                c.public_key,
            )) ==> {
                &&& now < c.not_before ==> error == Some(SyncError::CertificateNotYetValid)
                &&& now >= c.not_after ==> error == Some(SyncError::CertificateExpired)
            }
        }),
{
}

/// A certificate has the form of one exactly if its DeviceID is an ID, its name
/// has one to sixty-four bytes, its window is not empty, and its issuer is named.
pub proof fn certificate_forms(c: CertificateView)
    ensures
        certificate_shape_error(c) is None <==> {
            &&& is_id(c.device_id)
            &&& 1 <= utf8(c.device_name).len() <= 64
            &&& c.not_before < c.not_after
            &&& names_an_issuer(c.issuer_key_id)
        },
        certificate_field_error(c) is None <==> certificate_shape_error(c) is None && c.device_id
            == device_id_of(c.public_key),
{
    issuer_ids_are_names(c.issuer_key_id);
}

/// A certificate of valid form reads, byte by byte: the magic, one, the
/// DeviceID, the key, the name and the window, the issuer, and the signature.
pub proof fn certificates_read_as_written(c: CertificateView)
    requires
        certificate_shape_error(c) is None,
        c.public_key.len() == 32,
        c.signature.len() == 64,
    ensures
        ({
            let b = certificate_bytes(c);
            let name = utf8(c.device_name);
            let p = 82 + name.len() as int;
            let q = p + 18 + utf8(c.issuer_key_id).len() as int;
            &&& b.len() == q + 64
            &&& b.subrange(0, 15) == utf8("OMARCHY-CERT-V3"@)
            &&& b[15] == 1
            &&& b.subrange(16, 48) == utf8(c.device_id)
            &&& b.subrange(48, 80) == c.public_key
            &&& b[80] == 0
            &&& b[81] == name.len()
            &&& b.subrange(82, p) == name
            &&& number(b.subrange(p, p + 8)) == c.not_before
            &&& number(b.subrange(p + 8, p + 16)) == c.not_after
            &&& b[p + 16] == 0
            &&& b[p + 17] == utf8(c.issuer_key_id).len()
            &&& b.subrange(p + 18, q) == utf8(c.issuer_key_id)
            &&& b.subrange(q, q + 64) == c.signature
            &&& certificate_signed(c) == b.subrange(0, q)
        }),
{
    let b = certificate_bytes(c);
    let name = utf8(c.device_name);
    let issuer = utf8(c.issuer_key_id);
    let p = 82 + name.len() as int;
    let q = p + 18 + issuer.len() as int;
    certificate_length(c);
    crate::protocol_v3::protocol_magic_lengths();
    crate::codec::be_bytes_len(c.not_before as nat, 8);
    crate::codec::be_bytes_len(c.not_after as nat, 8);
    short_lengths(name.len());
    short_lengths(issuer.len());
    numbers_are_written(c.not_before);
    numbers_are_written(c.not_after);
    assert(b.subrange(0, 15) =~= utf8("OMARCHY-CERT-V3"@));
    assert(b.subrange(16, 48) =~= utf8(c.device_id));
    assert(b.subrange(48, 80) =~= c.public_key);
    assert(b.subrange(82, p) =~= name);
    assert(b.subrange(p, p + 8) =~= crate::codec::be_bytes(c.not_before as nat, 8));
    assert(b.subrange(p + 8, p + 16) =~= crate::codec::be_bytes(c.not_after as nat, 8));
    assert(b.subrange(p + 18, q) =~= issuer);
    assert(b.subrange(q, q + 64) =~= c.signature);
    assert(certificate_signed(c) =~= b.subrange(0, q));
}

/// The number that eight bytes spell, the most significant first.
pub open spec fn number(b: Seq<u8>) -> int {
    (((((((b[0] * 256 + b[1]) * 256 + b[2]) * 256 + b[3]) * 256 + b[4]) * 256 + b[5]) * 256 + b[6])
        * 256 + b[7])
}

/// A number in eight bytes spells itself.
pub(crate) proof fn numbers_are_written(value: u64)
    ensures
        crate::codec::be_bytes(value as nat, 8).len() == 8,
        number(crate::codec::be_bytes(value as nat, 8)) == value,
{
    assert(crate::codec::be_bound(8) == 0x1_0000_0000_0000_0000) by {
        reveal_with_fuel(crate::codec::be_bound, 9);
    }
    crate::codec::be_value_of_be_bytes(value as nat, 8);
    let b = crate::codec::be_bytes(value as nat, 8);
    let b7 = b.drop_last();
    let b6 = b7.drop_last();
    let b5 = b6.drop_last();
    let b4 = b5.drop_last();
    let b3 = b4.drop_last();
    let b2 = b3.drop_last();
    let b1 = b2.drop_last();
    reveal_with_fuel(crate::codec::be_value, 9);
    assert(b7.last() == b[6] && b6.last() == b[5] && b5.last() == b[4] && b4.last() == b[3]
        && b3.last() == b[2] && b2.last() == b[1] && b1.last() == b[0]);
}

/// The length of a short field stands in its second byte.
pub(crate) proof fn short_lengths(length: nat)
    requires
        length < 256,
    ensures
        crate::codec::be_bytes(length, 2).len() == 2,
        crate::codec::be_bytes(length, 2)[0] == 0,
        crate::codec::be_bytes(length, 2)[1] == length,
{
    reveal_with_fuel(crate::codec::be_bytes, 3);
}

/// What an issuer signs for a device is accepted under the issuer's key during
/// the whole window, for any key id that the root and the certificate share.
pub proof fn issued_certificates_are_accepted(
    issuer: Seq<u8>,
    c: CertificateView,
    root: RootView,
    now: u64,
)
    requires
        certificate_field_error(c) is None,
        root.public_key == ed25519_public(issuer),
        ed25519_key_valid(root.public_key),
        root.key_id == c.issuer_key_id,
        c.signature == ed25519_sign(issuer, certificate_signed(c)),
        ed25519_verifies(root.public_key, certificate_signed(c), c.signature),
    ensures
        certificate_error(c, root, now) is None <==> c.not_before <= now < c.not_after,
{
}

// ---------------------------------------------------------------------------
// Roots.
// ---------------------------------------------------------------------------
/// Trimming takes away exactly the white space around a text.
pub(crate) proof fn trimming_takes_white_space(
    before: Seq<char>,
    text: Seq<char>,
    after: Seq<char>,
)
    requires
        forall|k: int| 0 <= k < before.len() ==> is_white_space(#[trigger] before[k]),
        forall|k: int| 0 <= k < after.len() ==> is_white_space(#[trigger] after[k]),
        text.len() > 0,
        !is_white_space(text[0]),
        !is_white_space(text[text.len() - 1]),
    ensures
        trimmed(before + text + after) == text,
    decreases before.len() + after.len(),
{
    let all = before + text + after;
    if before.len() > 0 {
        assert(all.first() == before[0]);
        assert(all.drop_first() =~= before.drop_first() + text + after);
        trimming_takes_white_space(before.drop_first(), text, after);
    } else if after.len() > 0 {
        assert(all.first() == text[0]);
        assert(all.last() == after[after.len() - 1]);
        assert(all.drop_last() =~= before + text + after.drop_last());
        trimming_takes_white_space(before, text, after.drop_last());
    } else {
        assert(all =~= text);
    }
}

/// The value of a hexadecimal digit in either case.
pub open spec fn nibble(c: char) -> int {
    if c <= '9' {
        c as int - '0' as int
    } else if c <= 'F' {
        c as int - 'A' as int + 10
    } else {
        c as int - 'a' as int + 10
    }
}

/// A root key file of thirty-two bytes holds the key itself; the root is pinned
/// exactly if that is a key, under the DeviceID of the key.
pub proof fn raw_root_keys_are_pinned(key: Seq<u8>)
    requires
        key.len() == 32,
    ensures
        root_of_bytes(key) == (if ed25519_key_valid(key) {
            Ok::<RootView, SyncError>(RootView { public_key: key, key_id: device_id_of(key) })
        } else {
            Err(SyncError::RootKeyInvalid)
        }),
{
}

/// A root key file may spell the key in sixty-four hexadecimal digits of either
/// case, with white space around them.
pub proof fn spelled_root_keys_are_pinned(
    key: Seq<u8>,
    before: Seq<char>,
    digits: Seq<char>,
    after: Seq<char>,
)
    requires
        key.len() == 32,
        digits.len() == 64,
        forall|k: int|
            0 <= k < 64 ==> ('0' <= #[trigger] digits[k] <= '9') || ('a' <= digits[k] <= 'f') || (
            'A' <= digits[k] <= 'F'),
        forall|k: int|
            0 <= k < 32 ==> #[trigger] key[k] == nibble(digits[2 * k]) * 16 + nibble(
                digits[2 * k + 1],
            ),
        forall|k: int| 0 <= k < before.len() ==> is_white_space(#[trigger] before[k]),
        forall|k: int| 0 <= k < after.len() ==> is_white_space(#[trigger] after[k]),
    ensures
        root_of_bytes(utf8(before + digits + after)) == (if ed25519_key_valid(key) {
            Ok::<RootView, SyncError>(RootView { public_key: key, key_id: device_id_of(key) })
        } else {
            Err(SyncError::RootKeyInvalid)
        }),
{
    let text = before + digits + after;
    let bytes = utf8(text);
    trimming_takes_white_space(before, digits, after);
    encode_utf8_valid_utf8(text);
    encode_utf8_decode_utf8(text);
    assert(is_ascii_chars(digits));
    is_ascii_chars_encode_utf8(digits);
    text_is_no_longer_than_its_bytes(text);
    let d = utf8(digits);
    assert forall|k: int| 0 <= k < 64 implies crate::text::is_hex(#[trigger] d[k]) && d[k]
        == digits[k] as u8 by {
        assert(d[k] == digits[k] as u8);
    }
    assert(crate::text::unhex(d) =~= key) by {
        assert forall|k: int| 0 <= k < 32 implies #[trigger] crate::text::unhex(d)[k] == key[k] by {
            assert(d[2 * k] == digits[2 * k] as u8);
            assert(d[2 * k + 1] == digits[2 * k + 1] as u8);
            assert(crate::text::is_hex(d[2 * k]) && crate::text::is_hex(d[2 * k + 1]));
        }
    }
}

/// Every character of a text takes a byte at least.
pub(crate) proof fn text_is_no_longer_than_its_bytes(text: Seq<char>)
    ensures
        text.len() <= utf8(text).len(),
    decreases text.len(),
{
    if text.len() > 0 {
        text_is_no_longer_than_its_bytes(text.drop_first());
        encode_utf8_first_scalar(text);
        assert(utf8(text).len() == encode_scalar(text[0] as u32).len() + utf8(
            text.drop_first(),
        ).len());
    }
}

/// Whether neither group nor others may write.
pub open spec fn only_owner_writes(mode: u32) -> bool {
    (mode / 2) % 2 == 0 && (mode / 16) % 2 == 0
}

/// A root is pinned from a path exactly where the file is regular and root's
/// own, every directory above it is root's own, nobody else may write any of
/// them, and the file is not over 4096 bytes; it is then what the file holds.
pub proof fn roots_come_from_secure_paths(
    file: PathFacts,
    parents: Seq<PathFacts>,
    bytes: Seq<u8>,
)
    ensures
        ({
            let secure = {
                &&& file.regular_file
                &&& file.owner_uid == 0
                &&& only_owner_writes(file.mode)
                &&& forall|k: int|
                    0 <= k < parents.len() ==> {
                        &&& (#[trigger] parents[k]).directory
                        &&& parents[k].owner_uid == 0
                        &&& only_owner_writes(parents[k].mode)
                    }
                &&& bytes.len() <= 4096
            };
            &&& secure ==> root_of_path(file, parents, bytes) == root_of_bytes(bytes)
            &&& !secure ==> root_of_path(file, parents, bytes) is Err
        }),
{
    write_bits(file.mode);
    assert forall|k: int| 0 <= k < parents.len() implies (crate::protocol_v3::directory_secure(
        #[trigger] parents[k],
    ) <==> (parents[k].directory && parents[k].owner_uid == 0 && only_owner_writes(
        parents[k].mode,
    ))) by {
        write_bits(parents[k].mode);
    }
}

/// The two write bits.
proof fn write_bits(mode: u32)
    ensures
        mode & 0o022 == 0 <==> only_owner_writes(mode),
{
    assert(mode & 0o022 == 0 <==> (mode / 2) % 2 == 0 && (mode / 16) % 2 == 0) by (bit_vector);
}

// ---------------------------------------------------------------------------
// Enrollment.
// ---------------------------------------------------------------------------
/// A device is enrolled with the certificate that a provisioned file holds,
/// where the file is regular, open to nobody but its owner and of at most 512
/// bytes, the certificate is accepted now, and it is of this very identity. It
/// is enrolled with that certificate under that root, and with no other.
pub proof fn provisioned_devices_are_enrolled(
    root: RootView,
    file: CertificateFile,
    c: CertificateView,
    secret: Seq<u8>,
    now: u64,
)
    requires
        file.regular_file,
        file.mode % 64 == 0,
        file.size <= 512,
        c.public_key.len() == 32,
        c.signature.len() == 64,
        certificate_error(c, root, now) is None,
        c.public_key == ed25519_public(secret),
    ensures
        enrolled(root, file, certificate_bytes(c), secret, now) == Ok::<EnrollmentView, SyncError>(
            EnrollmentView { root, certificate: c },
        ),
{
    let mode = file.mode;
    assert(mode & 0o077 == mode % 64) by (bit_vector);
    certificate_round_trip(c);
}

/// Nothing else enrolls a device: whoever is enrolled holds the key of a
/// certificate that the root accepts now, read from a file that only its owner
/// can open.
pub proof fn enrollment_fails_closed(
    root: RootView,
    file: CertificateFile,
    bytes: Seq<u8>,
    secret: Seq<u8>,
    now: u64,
)
    requires
        enrolled(root, file, bytes, secret, now) is Ok,
    ensures
        ({
            let e = enrolled(root, file, bytes, secret, now)->Ok_0;
            &&& file.regular_file
            &&& file.mode % 64 == 0
            &&& file.size <= 512
            &&& e.root == root
            &&& bytes == certificate_bytes(e.certificate)
            &&& certificate_error(e.certificate, root, now) is None
            &&& e.certificate.public_key == ed25519_public(secret)
            &&& e.certificate.device_id == device_id_of(ed25519_public(secret))
        }),
{
    let mode = file.mode;
    assert(mode & 0o077 == mode % 64) by (bit_vector);
    certificate_canonical(bytes);
}

// ---------------------------------------------------------------------------
// Announcements.
// ---------------------------------------------------------------------------
/// An announcement is in order exactly if it is of this protocol version, its
/// certificate is accepted now, its holder signed it, and it is dated neither
/// further back nor further ahead than the window allows.
pub proof fn announcements_hold_for_their_window(v: VerifierView, a: AnnouncementView, now: u64)
    ensures
        v.announcement_error(a, now) is None <==> {
            &&& a.protocol_version == 3
            &&& certificate_error(a.certificate, v.root, now) is None
            &&& a.timestamp <= now + v.max_future
            &&& now <= a.timestamp + v.max_age
            &&& ed25519_key_valid(a.certificate.public_key)
            &&& ed25519_verifies(
                a.certificate.public_key,
                announcement_signed(a),
                a.signature,
            )
        },
{
}

/// Whether a remembered nonce no longer counts: its announcement is over the
/// age, or it was accepted longer ago than the whole window.
pub open spec fn spent_entry(v: VerifierView, entry: ReplayView, now: u64) -> bool {
    ||| now > entry.announced_at + v.max_age
    ||| now > entry.accepted_at + v.max_age + v.max_future
}

/// Filtering keeps what was there and is to be kept, and fewer than there were
/// where something is not.
pub(crate) proof fn filter_keeps_fewer(seen: Seq<ReplayView>, keep: spec_fn(ReplayView) -> bool)
    ensures
        forall|k: int|
            0 <= k < seen.filter(keep).len() ==> keep(#[trigger] seen.filter(keep)[k])
                && seen.contains(seen.filter(keep)[k]),
        seen.filter(keep).len() <= seen.len(),
        (exists|k: int| 0 <= k < seen.len() && !keep(#[trigger] seen[k])) ==> seen.filter(
            keep,
        ).len() < seen.len(),
    decreases seen.len(),
{
    reveal(Seq::filter);
    if seen.len() > 0 {
        let rest = seen.drop_last();
        filter_keeps_fewer(rest, keep);
        let kept = rest.filter(keep);
        assert forall|k: int| 0 <= k < seen.filter(keep).len() implies keep(
            #[trigger] seen.filter(keep)[k],
        ) && seen.contains(seen.filter(keep)[k]) by {
            if k < kept.len() {
                assert(seen.filter(keep)[k] == kept[k]);
                let j = choose|j: int| 0 <= j < rest.len() && rest[j] == kept[k];
                assert(seen[j] == kept[k]);
            } else {
                assert(seen[seen.len() - 1] == seen.filter(keep)[k]);
            }
        }
        if exists|k: int| 0 <= k < seen.len() && !keep(#[trigger] seen[k]) {
            let k = choose|k: int| 0 <= k < seen.len() && !keep(#[trigger] seen[k]);
            if k < rest.len() {
                assert(!keep(rest[k]));
            }
        }
    }
}

/// An announcement in order, with a nonce that is not remembered, is accepted
/// where there is room to remember it, and tells the device's ID, name, key,
/// time and port. Nonces that no longer count stand in nobody's way: neither do
/// they repeat, nor do they take room.
pub proof fn announcements_are_accepted(v: VerifierView, a: AnnouncementView, now: u64)
    requires
        a.protocol_version == 3,
        certificate_error(a.certificate, v.root, now) is None,
        a.timestamp <= now + v.max_future,
        now <= a.timestamp + v.max_age,
        ed25519_key_valid(a.certificate.public_key),
        ed25519_verifies(a.certificate.public_key, announcement_signed(a), a.signature),
        a.port != 0,
        a.certificate.public_key.len() == 32,
        a.certificate.signature.len() == 64,
        a.nonce.len() == 32,
        a.signature.len() == 64,
        forall|k: int|
            0 <= k < v.seen.len() && (#[trigger] v.seen[k]).nonce == a.nonce ==> spent_entry(
                v,
                v.seen[k],
                now,
            ),
        v.seen.len() < v.limit || (v.seen.len() == v.limit && exists|k: int|
            0 <= k < v.seen.len() && spent_entry(v, #[trigger] v.seen[k], now)),
    ensures
        v.answer(announcement_bytes(a), now) == Ok::<DiscoveredView, SyncError>(
            DiscoveredView {
                device_id: a.certificate.device_id,
                device_name: a.certificate.device_name,
                public_key: a.certificate.public_key,
                timestamp: a.timestamp,
                port: a.port,
            },
        ),
{
    announcement_round_trip(a);
    let kept = |entry: ReplayView| v.retains(entry, now);
    filter_keeps_fewer(v.seen, kept);
    assert(!remembers(v.pruned(now), a.nonce)) by {
        if remembers(v.pruned(now), a.nonce) {
            let k = choose|k: int|
                0 <= k < v.pruned(now).len() && (#[trigger] v.pruned(now)[k]).nonce == a.nonce;
            let entry = v.pruned(now)[k];
            assert(kept(entry) && v.seen.contains(entry));
        }
    }
    if v.seen.len() == v.limit {
        let k = choose|k: int| 0 <= k < v.seen.len() && spent_entry(v, #[trigger] v.seen[k], now);
        assert(!kept(v.seen[k]));
    }
}

/// A verifier as it is set up in production: announcements of the last ninety
/// seconds and up to ten seconds ahead are in order, and 4096 nonces are
/// remembered.
pub proof fn production_window(root: RootView, a: AnnouncementView, now: u64)
    ensures
        ({
            let v = VerifierView {
                root,
                max_age: crate::protocol_v3::MAX_DISCOVERY_AGE_SECONDS,
                max_future: crate::protocol_v3::MAX_DISCOVERY_FUTURE_SECONDS,
                limit: crate::protocol_v3::MAX_REPLAY_ENTRIES as nat,
                seen: Seq::empty(),
            };
            &&& v.limit == 4096
            &&& v.announcement_error(a, now) is None <==> {
                &&& a.protocol_version == 3
                &&& certificate_error(a.certificate, root, now) is None
                &&& now - 90 <= a.timestamp <= now + 10
                &&& ed25519_key_valid(a.certificate.public_key)
                &&& ed25519_verifies(
                    a.certificate.public_key,
                    announcement_signed(a),
                    a.signature,
                )
            }
        }),
{
}

/// A packet is remembered exactly if it is accepted: then its nonce is, beside
/// all those that still count; else nothing is added.
pub proof fn accepted_nonces_are_remembered(
    v: VerifierView,
    bytes: Seq<u8>,
    now: u64,
    entry: ReplayView,
)
    ensures
        ({
            let after = v.after(bytes, now);
            let accepted = v.answer(bytes, now) is Ok;
            &&& after.root == v.root
            &&& after.max_age == v.max_age
            &&& after.max_future == v.max_future
            &&& after.limit == v.limit
            &&& after.seen.contains(entry) <==> {
                ||| v.seen.contains(entry) && !spent_entry(v, entry, now)
                ||| accepted && entry == (ReplayView {
                    nonce: announcement_parsed(bytes)->Ok_0.nonce,
                    accepted_at: now,
                    announced_at: announcement_parsed(bytes)->Ok_0.timestamp,
                })
            }
        }),
{
    let kept = |e: ReplayView| v.retains(e, now);
    let old_entries = v.pruned(now);
    filter_keeps_fewer(v.seen, kept);
    broadcast use vstd::seq_lib::group_filter_ensures;
    let after = v.after(bytes, now);
    let a = announcement_parsed(bytes)->Ok_0;
    let new_entry = ReplayView { nonce: a.nonce, accepted_at: now, announced_at: a.timestamp };
    assert(kept(entry) <==> !spent_entry(v, entry, now));
    assert(old_entries.contains(entry) <==> v.seen.contains(entry) && kept(entry)) by {
        if v.seen.contains(entry) && kept(entry) {
            let k = choose|k: int| 0 <= k < v.seen.len() && v.seen[k] == entry;
            assert(v.seen.filter(kept).contains(v.seen[k]));
        }
        if old_entries.contains(entry) {
            let k = choose|k: int| 0 <= k < old_entries.len() && old_entries[k] == entry;
            assert(kept(old_entries[k]));
        }
    }
    if v.answer(bytes, now) is Ok {
        assert(after.seen == old_entries.push(new_entry));
        if after.seen.contains(entry) && entry != new_entry {
            let k = choose|k: int| 0 <= k < after.seen.len() && after.seen[k] == entry;
            assert(old_entries[k] == entry);
        }
        if old_entries.contains(entry) {
            let k = choose|k: int| 0 <= k < old_entries.len() && old_entries[k] == entry;
            assert(after.seen[k] == entry);
        }
        assert(after.seen[old_entries.len() as int] == new_entry);
    }
}

} // verus!
