//! How clients come to use the relay: enrollment, challenge, registration, and the
//! list of those that may.
//!
//! Identity keys are read and signatures are checked outside. Every step says what
//! has to be checked before the next one may be taken.
use vstd::prelude::*;
use vstd::utf8::*;

use crate::bytes::{copy_bytes, copy_range, same_bytes};
use crate::primitives;
use crate::primitives::{b64, constant_time_eq, hash, random_32, sha256};
use crate::relay_http;
use crate::relay_http::{
    bad_request, bearer, decode_bounded_base64, internal, not_found, require_json_content,
    unauthorized, validate_json_accept, validate_text, ApiError, ErrorView, HeaderView,
    RequestHeaders, API_VERSION, MAX_BUNDLE_BYTES, MAX_FINGERPRINT_BYTES, MAX_IDENTITY_B64_BYTES,
    MAX_IDENTITY_BYTES, MAX_ID_BYTES, MAX_LABEL_BYTES, MAX_SECRET_BYTES, MAX_SIGNATURE_B64_BYTES,
    MAX_SIGNATURE_BYTES,
};
use crate::relay_signing;
use crate::relay_signing::{write_enrollment_payload, write_register_payload};
use crate::relay_store;
use crate::relay_store::{
    AllowRow, AllowView, ChallengeRow, ChallengeView, DeviceRow, DeviceView, PendingRow,
    PendingView, RelayStore, StoreView, MAX_TIME,
};
use crate::rows;
use crate::text;
use crate::text::{parse_u64, same_text, trim};

verus! {

/// The longest bundle in Base64.
pub const MAX_BUNDLE_B64_BYTES: usize = 2 * 1024 * 1024;

/// How long a challenge may be answered, in seconds.
pub const CHALLENGE_LIFETIME: u64 = 300;

/// How long a request for enrollment waits, in seconds.
pub const ENROLLMENT_LIFETIME: u64 = 900;

// ---------------------------------------------------------------------------
// Checks that several requests have in common
// ---------------------------------------------------------------------------

/// A request in JSON that takes an answer in JSON.
pub open spec fn json_request(headers: RequestHeaders) -> Result<(), Seq<char>> {
    match relay_http::json_content(headers.content_type@) {
        Err(message) => Err(message),
        Ok(_) => relay_http::json_accept(headers.accept@),
    }
}

/// Checks a request in JSON that takes an answer in JSON.
pub fn check_json_request(headers: &RequestHeaders) -> (result: Result<(), ApiError>)
    ensures
        match json_request(*headers) {
            Ok(_) => result is Ok,
            Err(message) => result matches Err(error) && error@ == relay_http::is_bad_request(
                message,
            ),
        },
{
    if let Err(message) = require_json_content(headers) {
        return Err(bad_request(message));
    }
    if let Err(message) = validate_json_accept(headers) {
        return Err(bad_request(message));
    }
    Ok(())
}

/// Checks the length of a text.
pub(crate) fn check_text(value: &str, limit: usize, field: &str) -> (result: Result<(), ApiError>)
    ensures
        match relay_http::text_within(value@, limit, field@) {
            Ok(_) => result is Ok,
            Err(message) => result matches Err(error) && error@ == relay_http::is_bad_request(
                message,
            ),
        },
{
    match validate_text(value, limit, field) {
        Ok(_) => Ok(()),
        Err(message) => Err(bad_request(message)),
    }
}

/// Reads bytes in Base64.
pub(crate) fn check_base64(
    value: &str,
    encoded_limit: usize,
    decoded_limit: usize,
    field: &str,
) -> (result: Result<Vec<u8>, ApiError>)
    ensures
        match relay_http::bounded_bytes(value@, encoded_limit, decoded_limit, field@) {
            Ok(bytes) => result matches Ok(decoded) && decoded@ == bytes,
            Err(message) => result matches Err(error) && error@ == relay_http::is_bad_request(
                message,
            ),
        },
{
    match decode_bounded_base64(value, encoded_limit, decoded_limit, field) {
        Ok(bytes) => Ok(bytes),
        Err(message) => Err(bad_request(message)),
    }
}

/// The identity key in a text.
pub open spec fn identity_in(value: Seq<char>) -> Result<Seq<u8>, Seq<char>> {
    relay_http::bounded_bytes(value, MAX_IDENTITY_B64_BYTES, MAX_IDENTITY_BYTES, "identity key"@)
}

/// The bundle in a text.
pub open spec fn bundle_in(value: Seq<char>) -> Result<Seq<u8>, Seq<char>> {
    relay_http::bounded_bytes(value, MAX_BUNDLE_B64_BYTES, MAX_BUNDLE_BYTES, "bundle"@)
}

/// The signature in a text.
pub open spec fn signature_in(value: Seq<char>) -> Result<Seq<u8>, Seq<char>> {
    relay_http::bounded_bytes(value, MAX_SIGNATURE_B64_BYTES, MAX_SIGNATURE_BYTES, "signature"@)
}

/// Reads a bundle.
pub(crate) fn check_bundle(value: &str) -> (result: Result<Vec<u8>, ApiError>)
    ensures
        match bundle_in(value@) {
            Ok(bytes) => result matches Ok(decoded) && decoded@ == bytes,
            Err(message) => result matches Err(error) && error@ == relay_http::is_bad_request(
                message,
            ),
        },
{
    check_base64(value, MAX_BUNDLE_B64_BYTES, MAX_BUNDLE_BYTES, "bundle")
}

/// A signature that has to be checked, and what it is to be over.
#[derive(Debug)]
pub struct SignedClaim {
    pub bundle: Vec<u8>,
    pub payload: Vec<u8>,
    pub signature: Vec<u8>,
}

/// The contents of a [`SignedClaim`].
#[verifier::ext_equal]
pub struct ClaimView {
    pub bundle: Seq<u8>,
    pub payload: Seq<u8>,
    pub signature: Seq<u8>,
}

impl View for SignedClaim {
    type V = ClaimView;

    open spec fn view(&self) -> ClaimView {
        ClaimView {
            bundle: self.bundle@,
            payload: self.payload@,
            signature: self.signature@,
        }
    }
}

// ---------------------------------------------------------------------------
// Enrollment
// ---------------------------------------------------------------------------

/// A request for enrollment.
#[derive(Debug)]
pub struct EnrollmentRequest {
    pub device_address: String,
    pub identity_key: String,
    pub fingerprint: String,
    pub bundle: String,
    pub enrollment_secret_hash: String,
    pub signature: String,
}

/// The answer to a request for enrollment.
#[derive(Debug)]
pub struct EnrollmentAnswer {
    pub accepted: bool,
    pub client_id: String,
    pub expires_at: u64,
}

/// A hexadecimal digit.
pub open spec fn is_hex_digit(byte: u8) -> bool {
    (0x30 <= byte && byte <= 0x39) || (0x41 <= byte && byte <= 0x46) || (0x61 <= byte && byte
        <= 0x66)
}

/// A digest in hexadecimal notation.
pub open spec fn is_hex_digest(value: Seq<char>) -> bool {
    encode_utf8(value).len() == 64 && forall|i: int|
        0 <= i < encode_utf8(value).len() ==> is_hex_digit(#[trigger] encode_utf8(value)[i])
}

/// Whether the texts of a request for enrollment have the right lengths.
pub open spec fn enrollment_fits(request: EnrollmentRequest) -> bool {
    &&& encode_utf8(request.device_address@).len() <= MAX_ID_BYTES
    &&& encode_utf8(request.fingerprint@).len() <= MAX_FINGERPRINT_BYTES
    &&& is_hex_digest(request.enrollment_secret_hash@)
    &&& encode_utf8(request.bundle@).len() <= MAX_BUNDLE_B64_BYTES
}

/// The identity key of a request for enrollment.
pub open spec fn enrollment_identity(headers: RequestHeaders, request: EnrollmentRequest) -> Result<
    Seq<u8>,
    ErrorView,
> {
    match json_request(headers) {
        Err(message) => Err(relay_http::is_bad_request(message)),
        Ok(_) => if !enrollment_fits(request) {
            Err(relay_http::is_bad_request("invalid enrollment request size"@))
        } else {
            match identity_in(request.identity_key@) {
                Ok(bytes) => Ok(bytes),
                Err(message) => Err(relay_http::is_bad_request(message)),
            }
        },
    }
}

/// What has to be checked of a request for enrollment, once it is known whether its
/// identity key is one.
pub open spec fn enrollment_claim(request: EnrollmentRequest, identity_valid: bool) -> Result<
    ClaimView,
    ErrorView,
> {
    if !identity_valid {
        Err(relay_http::is_bad_request("invalid identity key"@))
    } else {
        match bundle_in(request.bundle@) {
            Err(message) => Err(relay_http::is_bad_request(message)),
            Ok(bundle) => match signature_in(request.signature@) {
                Err(message) => Err(relay_http::is_bad_request(message)),
                Ok(signature) => Ok(
                    ClaimView {
                        bundle,
                        payload: relay_signing::enrollment_payload(
                            request.device_address@,
                            request.fingerprint@,
                            request.enrollment_secret_hash@,
                            bundle,
                        ),
                        signature,
                    },
                ),
            },
        }
    }
}

/// The ID that the relay assigns to an identity.
pub open spec fn assigned_id(identity: Seq<u8>) -> Seq<char> {
    "sc-"@ + primitives::base64_url(primitives::sha256_digest(identity).take(12))
}

/// The ID that the relay assigns to an identity.
pub fn assign_client_id(identity: &[u8]) -> (client_id: String)
    ensures
        client_id@ == assigned_id(identity@),
{
    let digest = sha256(identity);
    let mut client_id = "sc-".to_owned();
    let start = copy_range(digest.as_slice(), 0, 12);
    assert(start@ =~= primitives::sha256_digest(identity@).take(12));
    client_id.append(b64(start.as_slice()).as_str());
    client_id
}

fn hex_digest(value: &str) -> (result: bool)
    ensures
        result == is_hex_digest(value@),
{
    let bytes = value.as_bytes();
    if bytes.len() != 64 {
        return false;
    }
    let mut index: usize = 0;
    while index < bytes.len()
        invariant
            index <= bytes@.len(),
            bytes@ == encode_utf8(value@),
            forall|i: int| 0 <= i < index ==> is_hex_digit(#[trigger] bytes@[i]),
        decreases bytes@.len() - index,
    {
        let byte: u8 = bytes[index];
        if !((0x30 <= byte && byte <= 0x39) || (0x41 <= byte && byte <= 0x46) || (0x61 <= byte
            && byte <= 0x66)) {
            assert(!is_hex_digit(bytes@[index as int]));
            return false;
        }
        index += 1;
    }
    true
}

/// Reads the identity key of a request for enrollment.
pub fn read_enrollment_identity(headers: &RequestHeaders, request: &EnrollmentRequest) -> (result:
    Result<Vec<u8>, ApiError>)
    ensures
        match enrollment_identity(*headers, *request) {
            Ok(bytes) => result matches Ok(identity) && identity@ == bytes,
            Err(refusal) => result matches Err(error) && error@ == refusal,
        },
{
    check_json_request(headers)?;
    if request.device_address.as_str().as_bytes().len() > MAX_ID_BYTES
        || request.fingerprint.as_str().as_bytes().len() > MAX_FINGERPRINT_BYTES || !hex_digest(
        request.enrollment_secret_hash.as_str(),
    ) || request.bundle.as_str().as_bytes().len() > MAX_BUNDLE_B64_BYTES {
        return Err(bad_request("invalid enrollment request size".to_owned()));
    }
    check_base64(
        request.identity_key.as_str(),
        MAX_IDENTITY_B64_BYTES,
        MAX_IDENTITY_BYTES,
        "identity key",
    )
}

/// Prepares the check of a request for enrollment.
pub fn read_enrollment_claim(request: &EnrollmentRequest, identity_valid: bool) -> (result: Result<
    SignedClaim,
    ApiError,
>)
    ensures
        match enrollment_claim(*request, identity_valid) {
            Ok(value) => result matches Ok(claim) && claim@ == value,
            Err(refusal) => result matches Err(error) && error@ == refusal,
        },
{
    if !identity_valid {
        return Err(bad_request("invalid identity key".to_owned()));
    }
    let bundle = check_bundle(request.bundle.as_str())?;
    let payload = write_enrollment_payload(
        request.device_address.as_str(),
        request.fingerprint.as_str(),
        request.enrollment_secret_hash.as_str(),
        bundle.as_slice(),
    );
    let signature = check_base64(
        request.signature.as_str(),
        MAX_SIGNATURE_B64_BYTES,
        MAX_SIGNATURE_BYTES,
        "signature",
    )?;
    Ok(SignedClaim { bundle, payload, signature })
}

/// The row of a request for enrollment.
pub open spec fn pending_row(
    request: EnrollmentRequest,
    identity: Seq<u8>,
    bundle: Seq<u8>,
    now: u64,
) -> PendingView {
    PendingView {
        device_address: request.device_address@,
        identity_key: identity,
        fingerprint: request.fingerprint@,
        bundle,
        secret_hash: request.enrollment_secret_hash@,
        created_at: now as i64,
        expires_at: (now + ENROLLMENT_LIFETIME) as i64,
    }
}

impl RelayStore {
    /// Keeps a request for enrollment whose signature has been checked. The ID comes
    /// from the identity, so that a client that asks again takes its own place.
    pub fn enrollment_request(
        &mut self,
        request: EnrollmentRequest,
        identity: Vec<u8>,
        canonical_identity: &[u8],
        claim: SignedClaim,
        valid: bool,
        now: u64,
    ) -> (result: Result<EnrollmentAnswer, ApiError>)
        requires
            old(self).wf(),
            now <= MAX_TIME,
        ensures
            final(self).wf(),
            if !valid {
                &&& result matches Err(error) && error@ == relay_http::is_unauthorized()
                &&& final(self)@ == old(self)@
            } else {
                &&& result matches Ok(answer) && answer.accepted && answer.client_id@
                    == assigned_id(canonical_identity@) && answer.expires_at == now
                    + ENROLLMENT_LIFETIME
                &&& final(self)@ == (StoreView {
                    pending: old(self)@.pending.insert(
                        assigned_id(canonical_identity@),
                        pending_row(request, identity@, claim@.bundle, now),
                    ),
                    ..old(self)@
                })
            },
            valid ==> final(self)@ == asked(
                old(self)@,
                request,
                identity@,
                canonical_identity@,
                claim@.bundle,
                now,
            ),
    {
        if !valid {
            return Err(unauthorized());
        }
        let client_id = assign_client_id(canonical_identity);
        let expires_at: u64 = now + ENROLLMENT_LIFETIME;
        let row = PendingRow {
            device_address: request.device_address,
            identity_key: identity,
            fingerprint: request.fingerprint,
            bundle: claim.bundle,
            secret_hash: request.enrollment_secret_hash,
            created_at: now as i64,
            expires_at: expires_at as i64,
        };
        let ghost before = self.pending@;
        self.pending.put(client_id.as_str(), row);
        assert(relay_store::pending_views(self.pending@) =~= relay_store::pending_views(
            before,
        ).insert(client_id@, row@));
        Ok(EnrollmentAnswer { accepted: true, client_id, expires_at })
    }

    /// Lets a client that has asked for enrollment register.
    pub fn approve_enrollment(&mut self, client_id: &str, now: u64) -> (approved: bool)
        requires
            old(self).wf(),
            now <= MAX_TIME,
        ensures
            final(self).wf(),
            approved == (old(self)@.pending.contains_key(client_id@)
                && old(self)@.pending[client_id@].expires_at >= now),
            final(self)@ == (if approved {
                let asked = old(self)@.pending[client_id@];
                StoreView {
                    pending: old(self)@.pending.remove(client_id@),
                    allowlist: old(self)@.allowlist.insert(client_id@, approved_row(asked, now)),
                    ..old(self)@
                }
            } else {
                old(self)@
            }),
            (final(self)@, approved) == approve_step(old(self)@, client_id@, now),
    {
        let row = match self.pending.get(client_id) {
            None => return false,
            Some(asked) => {
                if asked.expires_at < now as i64 {
                    return false;
                }
                AllowRow {
                    identity_key: copy_bytes(asked.identity_key.as_slice()),
                    fingerprint: asked.fingerprint.clone(),
                    secret_hash: asked.secret_hash.clone(),
                    used: false,
                    device_address: asked.device_address.clone(),
                    active: true,
                    label: asked.device_address.clone(),
                    created_at: now as i64,
                }
            },
        };
        let ghost allowed = self.allowlist@;
        let ghost waiting = self.pending@;
        self.allowlist.put(client_id, row);
        self.pending.remove(client_id);
        assert(relay_store::allow_views(self.allowlist@) =~= relay_store::allow_views(
            allowed,
        ).insert(client_id@, row@));
        assert(relay_store::pending_views(self.pending@) =~= relay_store::pending_views(
            waiting,
        ).remove(client_id@));
        true
    }

    /// Forgets a request for enrollment.
    pub fn reject_enrollment(&mut self, client_id: &str) -> (rejected: bool)
        requires
            old(self).wf(),
        ensures
            final(self).wf(),
            rejected == old(self)@.pending.contains_key(client_id@),
            final(self)@ == (StoreView {
                pending: old(self)@.pending.remove(client_id@),
                ..old(self)@
            }),
            (final(self)@, rejected) == reject_step(old(self)@, client_id@),
    {
        let rejected = self.pending.get(client_id).is_some();
        let ghost waiting = self.pending@;
        self.pending.remove(client_id);
        assert(relay_store::pending_views(self.pending@) =~= relay_store::pending_views(
            waiting,
        ).remove(client_id@));
        rejected
    }
}

/// The store with an enrollment that was asked for.
pub open spec fn asked(
    s: StoreView,
    request: EnrollmentRequest,
    identity: Seq<u8>,
    canonical_identity: Seq<u8>,
    bundle: Seq<u8>,
    now: u64,
) -> StoreView {
    StoreView {
        pending: s.pending.insert(
            assigned_id(canonical_identity),
            pending_row(request, identity, bundle, now),
        ),
        ..s
    }
}

/// The store after an enrollment was to be approved, and whether it was.
pub open spec fn approve_step(s: StoreView, client_id: Seq<char>, now: u64) -> (StoreView, bool) {
    if s.pending.contains_key(client_id) && s.pending[client_id].expires_at >= now {
        (
            StoreView {
                pending: s.pending.remove(client_id),
                allowlist: s.allowlist.insert(
                    client_id,
                    approved_row(s.pending[client_id], now),
                ),
                ..s
            },
            true,
        )
    } else {
        (s, false)
    }
}

/// The store after an enrollment was to be rejected, and whether it was.
pub open spec fn reject_step(s: StoreView, client_id: Seq<char>) -> (StoreView, bool) {
    (
        StoreView { pending: s.pending.remove(client_id), ..s },
        s.pending.contains_key(client_id),
    )
}

/// The row of a client that was approved.
pub open spec fn approved_row(asked: PendingView, now: u64) -> AllowView {
    AllowView {
        identity_key: asked.identity_key,
        fingerprint: asked.fingerprint,
        secret_hash: asked.secret_hash,
        used: false,
        device_address: asked.device_address,
        active: true,
        label: asked.device_address,
        created_at: now as i64,
    }
}

/// A request for enrollment, as an operator is shown it.
#[derive(Clone, Debug, PartialEq, Eq)]
pub struct PendingEnrollment {
    pub client_id: String,
    pub device_address: String,
    pub fingerprint: String,
    pub created_at: i64,
    pub expires_at: i64,
}

/// An entry shows a request that waits and has not expired.
pub open spec fn shows_pending(
    pending: Map<Seq<char>, PendingView>,
    entry: PendingEnrollment,
    now: u64,
) -> bool {
    let asked = pending[entry.client_id@];
    &&& pending.contains_key(entry.client_id@)
    &&& asked.expires_at >= now
    &&& entry.device_address@ == asked.device_address
    &&& entry.fingerprint@ == asked.fingerprint
    &&& entry.created_at == asked.created_at
    &&& entry.expires_at == asked.expires_at
}

/// No request is shown twice, and none behind a newer one.
pub open spec fn ordered_once(list: Seq<PendingEnrollment>) -> bool {
    forall|i: int, j: int|
        0 <= i < j < list.len() ==> (#[trigger] list[i]).client_id@ != (
        #[trigger] list[j]).client_id@ && list[i].created_at <= list[j].created_at
}

/// A request is shown.
pub open spec fn is_shown(list: Seq<PendingEnrollment>, client_id: Seq<char>) -> bool {
    exists|i: int| 0 <= i < list.len() && (#[trigger] list[i]).client_id@ == client_id
}

/// A list shows each request that waits and has not expired, the oldest first.
pub open spec fn lists_pending(
    pending: Map<Seq<char>, PendingView>,
    list: Seq<PendingEnrollment>,
    now: u64,
) -> bool {
    &&& forall|i: int| 0 <= i < list.len() ==> shows_pending(pending, #[trigger] list[i], now)
    &&& forall|client_id: Seq<char>| #[trigger]
        pending.contains_key(client_id) && pending[client_id].expires_at >= now ==> is_shown(
            list,
            client_id,
        )
    &&& ordered_once(list)
}

impl RelayStore {
    /// The requests for enrollment that have not expired, the oldest first.
    pub fn pending_enrollments(&self, now: u64) -> (list: Vec<PendingEnrollment>)
        requires
            self.wf(),
            now <= MAX_TIME,
        ensures
            lists_pending(self@.pending, list@, now),
    {
        let ghost pending = self@.pending;
        let ghost rows = self.pending.rows@;
        proof {
            crate::table::lemma_text_rows_map(rows);
        }
        let mut list: Vec<PendingEnrollment> = Vec::new();
        let mut index: usize = 0;
        while index < self.pending.rows.len()
            invariant
                self.wf(),
                now <= MAX_TIME,
                pending == self@.pending,
                rows == self.pending.rows@,
                index <= rows.len(),
                forall|i: int|
                    0 <= i < rows.len() ==> self.pending@.contains_key((#[trigger] rows[i]).key@)
                        && self.pending@[rows[i].key@] == rows[i].value,
                forall|i: int| 0 <= i < list@.len() ==> shows_pending(pending, #[trigger] list@[i], now),
                forall|i: int|
                    0 <= i < list@.len() ==> exists|r: int|
                        0 <= r < index && (#[trigger] rows[r]).key@ == (
                        #[trigger] list@[i]).client_id@,
                forall|r: int|
                    0 <= r < index && (#[trigger] rows[r]).value.expires_at >= now ==> is_shown(
                        list@,
                        rows[r].key@,
                    ),
                ordered_once(list@),
            decreases rows.len() - index,
        {
            let row = &self.pending.rows[index];
            assert(pending[row.key@] == row.value@);
            if row.value.expires_at >= now as i64 {
                let entry = PendingEnrollment {
                    client_id: row.key.clone(),
                    device_address: row.value.device_address.clone(),
                    fingerprint: row.value.fingerprint.clone(),
                    created_at: row.value.created_at,
                    expires_at: row.value.expires_at,
                };
                let ghost before = list@;
                let position = insert_pending(&mut list, entry);
                proof {
                    let after = list@;
                    assert forall|i: int| 0 <= i < after.len() implies shows_pending(
                        pending,
                        #[trigger] after[i],
                        now,
                    ) && exists|r: int|
                        0 <= r < index + 1 && (#[trigger] rows[r]).key@ == after[i].client_id@ by {
                        if i == position {
                            assert(rows[index as int].key@ == after[i].client_id@);
                        } else {
                            let j = if i < position {
                                i
                            } else {
                                i - 1
                            };
                            assert(after[i] == before[j]);
                            let r = choose|r: int|
                                0 <= r < index && (#[trigger] rows[r]).key@ == before[j].client_id@;
                            assert(rows[r].key@ == after[i].client_id@);
                        }
                    }
                    assert forall|r: int|
                        0 <= r < index + 1 && (
                        #[trigger] rows[r]).value.expires_at >= now implies is_shown(
                        after,
                        rows[r].key@,
                    ) by {
                        if r == index {
                            assert(after[position as int].client_id@ == rows[r].key@);
                        } else {
                            let j = choose|j: int|
                                0 <= j < before.len() && (#[trigger] before[j]).client_id@
                                    == rows[r].key@;
                            let i = if j < position {
                                j
                            } else {
                                j + 1
                            };
                            assert(after[i] == before[j]);
                        }
                    }
                }
            }
            index += 1;
        }
        proof {
            assert forall|client_id: Seq<char>| #[trigger]
                pending.contains_key(client_id) && pending[client_id].expires_at
                    >= now implies is_shown(list@, client_id) by {
                assert(self.pending@.contains_key(client_id));
                let r = choose|r: int| 0 <= r < rows.len() && (#[trigger] rows[r]).key@ == client_id;
                assert(pending[rows[r].key@] == rows[r].value@);
            }
        }
        list
    }
}

/// Puts an entry behind those that are not newer, and says where it stands.
fn insert_pending(list: &mut Vec<PendingEnrollment>, entry: PendingEnrollment) -> (position: usize)
    requires
        ordered_once(old(list)@),
        !is_shown(old(list)@, entry.client_id@),
    ensures
        position <= old(list)@.len(),
        final(list)@ == old(list)@.insert(position as int, entry),
        ordered_once(final(list)@),
{
    let ghost before = list@;
    let mut position: usize = list.len();
    while position > 0 && list[position - 1].created_at > entry.created_at
        invariant
            position <= list@.len(),
            list@ == before,
            forall|i: int|
                position <= i < before.len() ==> (#[trigger] before[i]).created_at
                    > entry.created_at,
        decreases position,
    {
        position -= 1;
    }
    list.insert(position, entry);
    proof {
        let after = list@;
        assert forall|i: int, j: int| 0 <= i < j < after.len() implies (
        #[trigger] after[i]).client_id@ != (#[trigger] after[j]).client_id@ && after[i].created_at
            <= after[j].created_at by {
            let bi = if i < position {
                i
            } else {
                i - 1
            };
            let bj = if j < position {
                j
            } else {
                j - 1
            };
            if i != position {
                assert(after[i] == before[bi]);
            }
            if j != position {
                assert(after[j] == before[bj]);
            }
            if i != position && j == position {
                if i < position - 1 {
                    assert(before[i].created_at <= before[position - 1].created_at);
                }
            }
        }
    }
    position
}

/// Why no request for enrollment is chosen.
#[derive(Clone, Copy, Debug, PartialEq, Eq, Structural)]
pub enum ChoiceError {
    /// There is none.
    NothingPending,
    /// The answer is no number.
    NotANumber,
    /// There is none of that number.
    OutOfRange,
}

/// The request that an operator chooses by its number, the first having the number
/// one.
pub open spec fn chosen(count: nat, input: Seq<char>) -> Result<int, ChoiceError> {
    if count == 0 {
        Err(ChoiceError::NothingPending)
    } else {
        match text::parsed_u64(text::trimmed(input)) {
            None => Err(ChoiceError::NotANumber),
            Some(number) => if 1 <= number <= count {
                Ok(number - 1)
            } else {
                Err(ChoiceError::OutOfRange)
            },
        }
    }
}

/// The client that an operator chooses by its number.
pub fn choose_pending_enrollment<'a>(clients: &'a Vec<String>, input: &str) -> (result: Result<
    &'a String,
    ChoiceError,
>)
    ensures
        match chosen(clients@.len(), input@) {
            Ok(index) => result == Ok::<&'a String, ChoiceError>(&clients@[index]),
            Err(fault) => result == Err::<&'a String, ChoiceError>(fault),
        },
{
    if clients.len() == 0 {
        return Err(ChoiceError::NothingPending);
    }
    match parse_u64(trim(input).as_str()) {
        None => Err(ChoiceError::NotANumber),
        Some(number) => {
            if number < 1 || number > clients.len() as u64 {
                return Err(ChoiceError::OutOfRange);
            }
            Ok(&clients[(number - 1) as usize])
        },
    }
}

// ---------------------------------------------------------------------------
// Challenge
// ---------------------------------------------------------------------------

/// A request for a challenge.
#[derive(Debug)]
pub struct ChallengeRequest {
    pub client_id: String,
    pub enrollment_secret: String,
}

/// The answer to a request for a challenge.
#[derive(Debug)]
pub struct ChallengeAnswer {
    pub challenge: String,
    pub expires_at: u64,
}

/// What is refused of a request for a challenge before the client is looked up.
pub open spec fn challenge_check(headers: RequestHeaders, request: ChallengeRequest) -> Result<
    (),
    Seq<char>,
> {
    match json_request(headers) {
        Err(message) => Err(message),
        Ok(_) => match relay_http::text_within(request.client_id@, MAX_ID_BYTES, "client ID"@) {
            Err(message) => Err(message),
            Ok(_) => relay_http::text_within(
                request.enrollment_secret@,
                MAX_SECRET_BYTES,
                "enrollment secret"@,
            ),
        },
    }
}

/// Whether a client may be challenged: it is on the list, has not registered yet,
/// and knows its secret.
pub open spec fn may_be_challenged(s: StoreView, client_id: Seq<char>, secret: Seq<char>) -> bool {
    &&& s.allowlist.contains_key(client_id)
    &&& s.allowlist[client_id].active
    &&& !s.allowlist[client_id].used
    &&& encode_utf8(s.allowlist[client_id].secret_hash) == encode_utf8(
        text::hex(primitives::sha256_digest(encode_utf8(secret))),
    )
}

impl RelayStore {
    /// Challenges a client with some bytes.
    pub fn challenge_with(
        &mut self,
        headers: &RequestHeaders,
        request: &ChallengeRequest,
        challenge: Vec<u8>,
        now: u64,
    ) -> (result: Result<ChallengeAnswer, ApiError>)
        requires
            old(self).wf(),
            now <= MAX_TIME,
        ensures
            final(self).wf(),
            match challenge_check(*headers, *request) {
                Err(message) => {
                    &&& result matches Err(error) && error@ == relay_http::is_bad_request(message)
                    &&& final(self)@ == old(self)@
                },
                Ok(_) => if may_be_challenged(
                    old(self)@,
                    request.client_id@,
                    request.enrollment_secret@,
                ) {
                    &&& result matches Ok(answer) && answer.challenge@ == primitives::base64_url(
                        challenge@,
                    ) && answer.expires_at == now + CHALLENGE_LIFETIME
                    &&& final(self)@ == (StoreView {
                        challenges: old(self)@.challenges.insert(
                            request.client_id@,
                            ChallengeView {
                                challenge: challenge@,
                                expires_at: (now + CHALLENGE_LIFETIME) as i64,
                            },
                        ),
                        ..old(self)@
                    })
                } else {
                    &&& result matches Err(error) && error@ == relay_http::is_unauthorized()
                    &&& final(self)@ == old(self)@
                },
            },
    {
        check_json_request(headers)?;
        check_text(request.client_id.as_str(), MAX_ID_BYTES, "client ID")?;
        check_text(request.enrollment_secret.as_str(), MAX_SECRET_BYTES, "enrollment secret")?;
        match self.allowlist.get(request.client_id.as_str()) {
            None => return Err(unauthorized()),
            Some(client) => {
                assert(self@.allowlist[request.client_id@] == client@);
                let digest = hash(request.enrollment_secret.as_str());
                if !client.active || client.used || !constant_time_eq(
                    client.secret_hash.as_str().as_bytes(),
                    digest.as_str().as_bytes(),
                ) {
                    return Err(unauthorized());
                }
            },
        }
        let expires_at: u64 = now + CHALLENGE_LIFETIME;
        let shown = b64(challenge.as_slice());
        let ghost before = self.challenges@;
        let row = ChallengeRow { challenge, expires_at: expires_at as i64 };
        self.challenges.put(request.client_id.as_str(), row);
        assert(relay_store::challenge_views(self.challenges@) =~= relay_store::challenge_views(
            before,
        ).insert(request.client_id@, row@));
        Ok(ChallengeAnswer { challenge: shown, expires_at })
    }

    /// Challenges a client with random bytes.
    pub fn challenge(&mut self, headers: &RequestHeaders, request: &ChallengeRequest, now: u64) -> (result:
        Result<ChallengeAnswer, ApiError>)
        requires
            old(self).wf(),
            now <= MAX_TIME,
        ensures
            final(self).wf(),
            match challenge_check(*headers, *request) {
                Err(message) => {
                    &&& result matches Err(error) && error@ == relay_http::is_bad_request(message)
                    &&& final(self)@ == old(self)@
                },
                Ok(_) => if may_be_challenged(
                    old(self)@,
                    request.client_id@,
                    request.enrollment_secret@,
                ) {
                    &&& final(self)@.challenges.contains_key(request.client_id@)
                    &&& final(self)@ == (StoreView {
                        challenges: old(self)@.challenges.insert(
                            request.client_id@,
                            final(self)@.challenges[request.client_id@],
                        ),
                        ..old(self)@
                    })
                    &&& result matches Ok(answer) && answer.challenge@ == primitives::base64_url(
                        final(self)@.challenges[request.client_id@].challenge,
                    ) && answer.expires_at == now + CHALLENGE_LIFETIME
                    &&& final(self)@.challenges[request.client_id@].challenge.len() == 32
                    &&& final(self)@.challenges[request.client_id@].expires_at == now
                        + CHALLENGE_LIFETIME
                } else {
                    &&& result matches Err(error) && error@ == relay_http::is_unauthorized()
                    &&& final(self)@ == old(self)@
                },
            },
    {
        let bytes: [u8; 32] = random_32();
        let challenge = copy_bytes(bytes.as_slice());
        assert(challenge@.len() == 32);
        self.challenge_with(headers, request, challenge, now)
    }
}

// ---------------------------------------------------------------------------
// Registration
// ---------------------------------------------------------------------------

/// A request to register a device.
#[derive(Debug)]
pub struct RegisterRequest {
    pub client_id: String,
    pub device_address: String,
    pub identity_key: String,
    pub bundle: String,
    pub signature: String,
}

/// The answer to a registration.
#[derive(Debug)]
pub struct RegisterAnswer {
    pub access_token: String,
    pub device_id: String,
    pub api_version: String,
}

/// Whether a client may register a device.
pub open spec fn may_register(s: StoreView, client_id: Seq<char>) -> bool {
    s.allowlist.contains_key(client_id) && s.allowlist[client_id].active
        && !s.allowlist[client_id].used
}

/// The identity key of a registration.
pub open spec fn register_identity(s: StoreView, headers: RequestHeaders, request: RegisterRequest) -> Result<
    Seq<u8>,
    ErrorView,
> {
    match json_request(headers) {
        Err(message) => Err(relay_http::is_bad_request(message)),
        Ok(_) => match relay_http::text_within(request.client_id@, MAX_ID_BYTES, "client ID"@) {
            Err(message) => Err(relay_http::is_bad_request(message)),
            Ok(_) => match relay_http::text_within(
                request.device_address@,
                MAX_ID_BYTES,
                "device address"@,
            ) {
                Err(message) => Err(relay_http::is_bad_request(message)),
                Ok(_) => if !may_register(s, request.client_id@) {
                    Err(relay_http::is_unauthorized())
                } else {
                    match identity_in(request.identity_key@) {
                        Ok(bytes) => Ok(bytes),
                        Err(message) => Err(relay_http::is_bad_request(message)),
                    }
                },
            },
        },
    }
}

/// What has to be checked of a registration, once its identity key has been read:
/// the identity must be the one on the list, and a challenge must be open.
pub open spec fn register_claim(
    s: StoreView,
    request: RegisterRequest,
    identity: Option<Seq<u8>>,
    now: u64,
) -> Result<ClaimView, ErrorView> {
    let client = request.client_id@;
    if !may_register(s, client) || identity != Some(s.allowlist[client].identity_key)
        || !s.challenges.contains_key(client) || s.challenges[client].expires_at < now
        || s.allowlist[client].secret_hash.len() == 0 {
        Err(relay_http::is_unauthorized())
    } else {
        match bundle_in(request.bundle@) {
            Err(message) => Err(relay_http::is_bad_request(message)),
            Ok(bundle) => match signature_in(request.signature@) {
                Err(message) => Err(relay_http::is_bad_request(message)),
                Ok(signature) => Ok(
                    ClaimView {
                        bundle,
                        payload: relay_signing::register_payload(
                            client,
                            request.device_address@,
                            bundle,
                            s.challenges[client].challenge,
                        ),
                        signature,
                    },
                ),
            },
        }
    }
}

/// The devices once one has registered: it takes the place of the client's device,
/// and of one that has its token.
pub open spec fn with_device(devices: Seq<DeviceView>, device: DeviceView) -> Seq<DeviceView> {
    rows::kept(
        devices,
        |other: DeviceView|
            other.client_id != device.client_id && other.token_hash != device.token_hash,
    ).push(device)
}

/// The device that a registration makes.
pub open spec fn registered_device(
    s: StoreView,
    request: RegisterRequest,
    bundle: Seq<u8>,
    token: Seq<u8>,
    now: u64,
) -> DeviceView {
    DeviceView {
        client_id: request.client_id@,
        identity_key: s.allowlist[request.client_id@].identity_key,
        device_address: request.device_address@,
        token_hash: text::hex(
            primitives::sha256_digest(encode_utf8(primitives::base64_url(token))),
        ),
        bundle,
        last_seen_at: now as i64,
    }
}

/// The store once a device has registered: the client's secret is spent, and its
/// challenge is gone.
pub open spec fn registered(
    s: StoreView,
    request: RegisterRequest,
    bundle: Seq<u8>,
    token: Seq<u8>,
    now: u64,
) -> StoreView {
    let client = request.client_id@;
    StoreView {
        allowlist: s.allowlist.insert(
            client,
            AllowView {
                used: true,
                device_address: request.device_address@,
                ..s.allowlist[client]
            },
        ),
        devices: with_device(s.devices, registered_device(s, request, bundle, token, now)),
        challenges: s.challenges.remove(client),
        ..s
    }
}

impl RelayStore {
    /// Reads the identity key of a registration.
    pub fn read_register_identity(&self, headers: &RequestHeaders, request: &RegisterRequest) -> (result:
        Result<Vec<u8>, ApiError>)
        requires
            self.wf(),
        ensures
            match register_identity(self@, *headers, *request) {
                Ok(bytes) => result matches Ok(identity) && identity@ == bytes,
                Err(refusal) => result matches Err(error) && error@ == refusal,
            },
    {
        check_json_request(headers)?;
        check_text(request.client_id.as_str(), MAX_ID_BYTES, "client ID")?;
        check_text(request.device_address.as_str(), MAX_ID_BYTES, "device address")?;
        match self.allowlist.get(request.client_id.as_str()) {
            None => return Err(unauthorized()),
            Some(client) => {
                assert(self@.allowlist[request.client_id@] == client@);
                if !client.active || client.used {
                    return Err(unauthorized());
                }
            },
        }
        check_base64(
            request.identity_key.as_str(),
            MAX_IDENTITY_B64_BYTES,
            MAX_IDENTITY_BYTES,
            "identity key",
        )
    }

    /// Prepares the check of a registration. The identity is given as it is written
    /// by whoever read it, or not at all where it could not be read.
    pub fn read_register_claim(&self, request: &RegisterRequest, identity: Option<Vec<u8>>, now: u64) -> (result:
        Result<SignedClaim, ApiError>)
        requires
            self.wf(),
            now <= MAX_TIME,
        ensures
            match register_claim(
                self@,
                *request,
                match identity {
                    Some(bytes) => Some(bytes@),
                    None => None,
                },
                now,
            ) {
                Ok(value) => result matches Ok(claim) && claim@ == value,
                Err(refusal) => result matches Err(error) && error@ == refusal,
            },
    {
        let known = match identity {
            Some(known) => known,
            None => return Err(unauthorized()),
        };
        match self.allowlist.get(request.client_id.as_str()) {
            None => return Err(unauthorized()),
            Some(client) => {
                assert(self@.allowlist[request.client_id@] == client@);
                if !client.active || client.used || !same_bytes(
                    known.as_slice(),
                    client.identity_key.as_slice(),
                ) || client.secret_hash.as_str().is_empty() {
                    return Err(unauthorized());
                }
            },
        }
        let challenge = match self.challenges.get(request.client_id.as_str()) {
            None => return Err(unauthorized()),
            Some(row) => {
                assert(self@.challenges[request.client_id@] == row@);
                if row.expires_at < now as i64 {
                    return Err(unauthorized());
                }
                &row.challenge
            },
        };
        let bundle = check_bundle(request.bundle.as_str())?;
        let signature = check_base64(
            request.signature.as_str(),
            MAX_SIGNATURE_B64_BYTES,
            MAX_SIGNATURE_BYTES,
            "signature",
        )?;
        let payload = write_register_payload(
            request.client_id.as_str(),
            request.device_address.as_str(),
            bundle.as_slice(),
            challenge.as_slice(),
        );
        Ok(SignedClaim { bundle, payload, signature })
    }

    fn put_device(&mut self, device: DeviceRow)
        requires
            old(self).wf(),
        ensures
            final(self).wf(),
            final(self)@ == (StoreView {
                devices: with_device(old(self)@.devices, device@),
                ..old(self)@
            }),
    {
        let ghost all = self@.devices;
        let ghost keep = |other: DeviceView|
            other.client_id != device@.client_id && other.token_hash != device@.token_hash;
        let mut left: Vec<DeviceRow> = Vec::new();
        let mut index: usize = 0;
        assert(all.take(0) =~= Seq::empty());
        assert(relay_store::device_views(left@) =~= rows::kept(all.take(0), keep));
        while index < self.devices.len()
            invariant
                all == relay_store::device_views(self.devices@),
                keep == (|other: DeviceView|
                    other.client_id != device@.client_id && other.token_hash
                        != device@.token_hash),
                index <= self.devices@.len(),
                relay_store::device_views(left@) == rows::kept(
                    all.take(index as int),
                    keep,
                ),
            decreases self.devices@.len() - index,
        {
            let other = &self.devices[index];
            assert(all[index as int] == other@);
            assert(all.take(index + 1).drop_last() =~= all.take(index as int));
            assert(all.take(index + 1).last() == other@);
            if !same_text(other.client_id.as_str(), device.client_id.as_str()) && !same_text(
                other.token_hash.as_str(),
                device.token_hash.as_str(),
            ) {
                let ghost before = left@;
                left.push(
                    DeviceRow {
                        client_id: other.client_id.clone(),
                        identity_key: copy_bytes(other.identity_key.as_slice()),
                        device_address: other.device_address.clone(),
                        token_hash: other.token_hash.clone(),
                        bundle: copy_bytes(other.bundle.as_slice()),
                        last_seen_at: other.last_seen_at,
                    },
                );
                assert(relay_store::device_views(left@) =~= relay_store::device_views(
                    before,
                ).push(other@));
            }
            index += 1;
        }
        assert(all.take(index as int) =~= all);
        let ghost before = left@;
        left.push(device);
        assert(relay_store::device_views(left@) =~= relay_store::device_views(before).push(
            device@,
        ));
        self.devices = left;
    }

    /// Registers a device whose signature has been checked, with some bytes for its
    /// token.
    pub fn register_with(
        &mut self,
        request: RegisterRequest,
        bundle: Vec<u8>,
        valid: bool,
        token: &[u8],
        now: u64,
    ) -> (result: Result<RegisterAnswer, ApiError>)
        requires
            old(self).wf(),
            now <= MAX_TIME,
        ensures
            final(self).wf(),
            if !valid || !may_register(old(self)@, request.client_id@) {
                &&& result matches Err(error) && error@ == relay_http::is_unauthorized()
                &&& final(self)@ == old(self)@
            } else {
                &&& result matches Ok(answer) && answer.access_token@ == primitives::base64_url(
                    token@,
                ) && answer.device_id@ == request.client_id@ && answer.api_version@ == API_VERSION@
                &&& final(self)@ == registered(old(self)@, request, bundle@, token@, now)
            },
    {
        if !valid {
            return Err(unauthorized());
        }
        let ghost s = self@;
        let (row, identity): (AllowRow, Vec<u8>) = match self.allowlist.get(
            request.client_id.as_str(),
        ) {
            None => return Err(unauthorized()),
            Some(client) => {
                assert(self@.allowlist[request.client_id@] == client@);
                if !client.active || client.used {
                    return Err(unauthorized());
                }
                (
                    AllowRow {
                        identity_key: copy_bytes(client.identity_key.as_slice()),
                        fingerprint: client.fingerprint.clone(),
                        secret_hash: client.secret_hash.clone(),
                        used: true,
                        device_address: request.device_address.clone(),
                        active: true,
                        label: client.label.clone(),
                        created_at: client.created_at,
                    },
                    copy_bytes(client.identity_key.as_slice()),
                )
            },
        };
        let shown = b64(token);
        let device = DeviceRow {
            client_id: request.client_id.clone(),
            identity_key: identity,
            device_address: request.device_address,
            token_hash: hash(shown.as_str()),
            bundle,
            last_seen_at: now as i64,
        };
        assert(device@ == registered_device(s, request, bundle@, token@, now));
        let ghost allowed = self.allowlist@;
        let ghost open = self.challenges@;
        self.allowlist.put(request.client_id.as_str(), row);
        self.challenges.remove(request.client_id.as_str());
        assert(relay_store::allow_views(self.allowlist@) =~= relay_store::allow_views(
            allowed,
        ).insert(request.client_id@, row@));
        assert(relay_store::challenge_views(self.challenges@) =~= relay_store::challenge_views(
            open,
        ).remove(request.client_id@));
        self.put_device(device);
        Ok(
            RegisterAnswer {
                access_token: shown,
                device_id: request.client_id,
                api_version: API_VERSION.to_owned(),
            },
        )
    }

    /// Registers a device whose signature has been checked, with a random token.
    pub fn register(&mut self, request: RegisterRequest, bundle: Vec<u8>, valid: bool, now: u64) -> (result:
        Result<RegisterAnswer, ApiError>)
        requires
            old(self).wf(),
            now <= MAX_TIME,
        ensures
            final(self).wf(),
            if !valid || !may_register(old(self)@, request.client_id@) {
                &&& result matches Err(error) && error@ == relay_http::is_unauthorized()
                &&& final(self)@ == old(self)@
            } else {
                exists|token: Seq<u8>|
                    {
                        &&& token.len() == 32
                        &&& final(self)@ == #[trigger] registered(
                            old(self)@,
                            request,
                            bundle@,
                            token,
                            now,
                        )
                        &&& result matches Ok(answer) && answer.access_token@
                            == primitives::base64_url(token) && answer.device_id@
                            == request.client_id@ && answer.api_version@ == API_VERSION@
                    }
            },
    {
        let token: [u8; 32] = random_32();
        assert(token@.len() == 32);
        let ghost s = self@;
        let ghost asked = request;
        let ghost held = bundle@;
        let result = self.register_with(request, bundle, valid, token.as_slice(), now);
        proof {
            if valid && may_register(s, asked.client_id@) {
                assert(self@ == registered(s, asked, held, token@, now));
            }
        }
        result
    }
}

/// A secret registers one device: a client that has registered can neither be
/// challenged nor register again.
pub proof fn law_secret_is_spent(
    s: StoreView,
    request: RegisterRequest,
    bundle: Seq<u8>,
    token: Seq<u8>,
    now: u64,
    secret: Seq<char>,
)
    ensures
        !may_register(registered(s, request, bundle, token, now), request.client_id@),
        !may_be_challenged(registered(s, request, bundle, token, now), request.client_id@, secret),
{
}

/// A registration stands: the device is on the list under the client's ID, with the
/// digest of its token, the challenge is gone, and as long as the client's entry is not
/// replaced, whatever else happens, no registration and no challenge follows.
pub proof fn law_registration_stands(
    s: StoreView,
    request: RegisterRequest,
    bundle: Seq<u8>,
    token: Seq<u8>,
    now: u64,
    later: StoreView,
    secret: Seq<char>,
)
    requires
        may_register(s, request.client_id@),
        later.allowlist.contains_key(request.client_id@),
        later.allowlist[request.client_id@] == registered(s, request, bundle, token, now).allowlist[
            request.client_id@],
    ensures
        ({
            let after = registered(s, request, bundle, token, now);
            let device = after.devices.last();
            &&& device.client_id == request.client_id@
            &&& device.token_hash == text::hex(
                primitives::sha256_digest(encode_utf8(primitives::base64_url(token))),
            )
            &&& device.bundle == bundle
            &&& !after.challenges.contains_key(request.client_id@)
            &&& after.allowlist[request.client_id@].used
        }),
        !may_register(later, request.client_id@),
        !may_be_challenged(later, request.client_id@, secret),
{
    law_one_device_for_each_client(s.devices, registered_device(s, request, bundle, token, now));
}

/// A client has at most one device.
pub proof fn law_one_device_for_each_client(devices: Seq<DeviceView>, device: DeviceView)
    ensures
        with_device(devices, device).last() == device,
        forall|i: int|
            0 <= i < with_device(devices, device).len() - 1 ==> (#[trigger] with_device(
                devices,
                device,
            )[i]).client_id != device.client_id,
{
    let keep = |other: DeviceView|
        other.client_id != device.client_id && other.token_hash != device.token_hash;
    rows::lemma_kept(devices, keep);
    let all = with_device(devices, device);
    let left = rows::kept(devices, keep);
    assert forall|i: int| 0 <= i < all.len() - 1 implies (#[trigger] all[i]).client_id
        != device.client_id by {
        assert(all[i] == left[i]);
        assert(keep(left[i]));
    }
}

// ---------------------------------------------------------------------------
// The list of clients
// ---------------------------------------------------------------------------

/// A client that is to be put on the list.
#[derive(Debug)]
pub struct AdminAllowlistRequest {
    pub client_id: String,
    pub identity_key: String,
    pub fingerprint: String,
    pub enrollment_secret: String,
    pub label: String,
}

/// What is refused of a client that is to be put on the list.
pub open spec fn allowlist_check(request: AdminAllowlistRequest) -> Result<Seq<u8>, Seq<char>> {
    match relay_http::text_within(request.client_id@, MAX_ID_BYTES, "client ID"@) {
        Err(message) => Err(message),
        Ok(_) => match relay_http::text_within(
            request.fingerprint@,
            MAX_FINGERPRINT_BYTES,
            "fingerprint"@,
        ) {
            Err(message) => Err(message),
            Ok(_) => match relay_http::text_within(
                request.enrollment_secret@,
                MAX_SECRET_BYTES,
                "enrollment secret"@,
            ) {
                Err(message) => Err(message),
                Ok(_) => match relay_http::text_within(request.label@, MAX_LABEL_BYTES, "label"@) {
                    Err(message) => Err(message),
                    Ok(_) => identity_in(request.identity_key@),
                },
            },
        },
    }
}

/// Reads the identity key of a client that is to be put on the list.
pub fn read_allowlist_identity(request: &AdminAllowlistRequest) -> (result: Result<Vec<u8>, String>)
    ensures
        match allowlist_check(*request) {
            Ok(bytes) => result matches Ok(identity) && identity@ == bytes,
            Err(message) => result matches Err(error) && error@ == message,
        },
{
    validate_text(request.client_id.as_str(), MAX_ID_BYTES, "client ID")?;
    validate_text(request.fingerprint.as_str(), MAX_FINGERPRINT_BYTES, "fingerprint")?;
    validate_text(request.enrollment_secret.as_str(), MAX_SECRET_BYTES, "enrollment secret")?;
    validate_text(request.label.as_str(), MAX_LABEL_BYTES, "label")?;
    decode_bounded_base64(
        request.identity_key.as_str(),
        MAX_IDENTITY_B64_BYTES,
        MAX_IDENTITY_BYTES,
        "identity key",
    )
}

/// What an administrator is refused before the client is put on the list.
pub open spec fn admin_check(
    headers: RequestHeaders,
    request: AdminAllowlistRequest,
    admin_token: Option<Seq<char>>,
) -> Result<Seq<u8>, ErrorView> {
    match json_request(headers) {
        Err(message) => Err(relay_http::is_bad_request(message)),
        Ok(_) => match allowlist_check(request) {
            Err(message) => Err(relay_http::is_bad_request(message)),
            Ok(identity) => match admin_token {
                None => Err(relay_http::is_not_found()),
                Some(expected) => match relay_http::bearer_token(headers.authorization@) {
                    None => Err(relay_http::is_unauthorized()),
                    Some(provided) => if encode_utf8(provided) == encode_utf8(expected) {
                        Ok(identity)
                    } else {
                        Err(relay_http::is_unauthorized())
                    },
                },
            },
        },
    }
}

/// Checks the request of an administrator, and reads the identity key in it.
pub fn check_admin_request(
    headers: &RequestHeaders,
    request: &AdminAllowlistRequest,
    admin_token: &Option<String>,
) -> (result: Result<Vec<u8>, ApiError>)
    ensures
        match admin_check(
            *headers,
            *request,
            match *admin_token {
                Some(token) => Some(token@),
                None => None,
            },
        ) {
            Ok(bytes) => result matches Ok(identity) && identity@ == bytes,
            Err(refusal) => result matches Err(error) && error@ == refusal,
        },
{
    check_json_request(headers)?;
    let identity = match read_allowlist_identity(request) {
        Ok(identity) => identity,
        Err(message) => return Err(bad_request(message)),
    };
    let expected = match admin_token {
        None => return Err(not_found()),
        Some(expected) => expected,
    };
    match bearer(headers) {
        None => Err(unauthorized()),
        Some(provided) => {
            if constant_time_eq(
                provided.as_str().as_bytes(),
                expected.as_str().as_bytes(),
            ) {
                Ok(identity)
            } else {
                Err(unauthorized())
            }
        },
    }
}

/// The row of a client that is put on the list. Its secret is not kept, only the
/// digest of it.
pub open spec fn listed_row(request: AdminAllowlistRequest, identity: Seq<u8>, now: u64) -> AllowView {
    AllowView {
        identity_key: identity,
        fingerprint: request.fingerprint@,
        secret_hash: text::hex(
            primitives::sha256_digest(encode_utf8(request.enrollment_secret@)),
        ),
        used: false,
        device_address: Seq::empty(),
        active: true,
        label: request.label@,
        created_at: now as i64,
    }
}

impl RelayStore {
    /// Puts a client on the list, unless it is on it or its identity key is none.
    pub fn add_allowlist(
        &mut self,
        request: AdminAllowlistRequest,
        identity: Vec<u8>,
        identity_valid: bool,
        now: u64,
    ) -> (added: bool)
        requires
            old(self).wf(),
            now <= MAX_TIME,
        ensures
            final(self).wf(),
            added == (identity_valid && !old(self)@.allowlist.contains_key(request.client_id@)),
            final(self)@ == (if added {
                StoreView {
                    allowlist: old(self)@.allowlist.insert(
                        request.client_id@,
                        listed_row(request, identity@, now),
                    ),
                    ..old(self)@
                }
            } else {
                old(self)@
            }),
            (final(self)@, added) == add_step(
                old(self)@,
                request,
                identity@,
                identity_valid,
                now,
            ),
    {
        if !identity_valid || self.allowlist.get(request.client_id.as_str()).is_some() {
            return false;
        }
        let row = AllowRow {
            identity_key: identity,
            fingerprint: request.fingerprint,
            secret_hash: hash(request.enrollment_secret.as_str()),
            used: false,
            device_address: String::new(),
            active: true,
            label: request.label,
            created_at: now as i64,
        };
        let ghost before = self.allowlist@;
        self.allowlist.put(request.client_id.as_str(), row);
        assert(relay_store::allow_views(self.allowlist@) =~= relay_store::allow_views(
            before,
        ).insert(request.client_id@, row@));
        true
    }

    /// Bars a client from the relay, and forgets its device.
    pub fn revoke(&mut self, client_id: &str) -> (revoked: bool)
        requires
            old(self).wf(),
        ensures
            final(self).wf(),
            revoked == old(self)@.allowlist.contains_key(client_id@),
            final(self)@ == (if revoked {
                StoreView {
                    allowlist: old(self)@.allowlist.insert(
                        client_id@,
                        AllowView { active: false, ..old(self)@.allowlist[client_id@] },
                    ),
                    devices: rows::kept(old(self)@.devices, is_other_client(client_id@)),
                    ..old(self)@
                }
            } else {
                old(self)@
            }),
            (final(self)@, revoked) == revoke_step(old(self)@, client_id@),
    {
        let row = match self.allowlist.get(client_id) {
            None => return false,
            Some(client) => {
                assert(self@.allowlist[client_id@] == client@);
                AllowRow {
                    identity_key: copy_bytes(client.identity_key.as_slice()),
                    fingerprint: client.fingerprint.clone(),
                    secret_hash: client.secret_hash.clone(),
                    used: client.used,
                    device_address: client.device_address.clone(),
                    active: false,
                    label: client.label.clone(),
                    created_at: client.created_at,
                }
            },
        };
        let ghost before = self.allowlist@;
        self.allowlist.put(client_id, row);
        assert(relay_store::allow_views(self.allowlist@) =~= relay_store::allow_views(
            before,
        ).insert(client_id@, row@));
        self.remove_device(client_id);
        true
    }

    fn remove_device(&mut self, client_id: &str)
        requires
            old(self).wf(),
        ensures
            final(self).wf(),
            final(self)@ == (StoreView {
                devices: rows::kept(old(self)@.devices, is_other_client(client_id@)),
                ..old(self)@
            }),
    {
        let ghost all = self@.devices;
        let ghost keep = is_other_client(client_id@);
        let mut left: Vec<DeviceRow> = Vec::new();
        let mut index: usize = 0;
        assert(all.take(0) =~= Seq::empty());
        assert(relay_store::device_views(left@) =~= rows::kept(all.take(0), keep));
        while index < self.devices.len()
            invariant
                all == relay_store::device_views(self.devices@),
                keep == is_other_client(client_id@),
                index <= self.devices@.len(),
                relay_store::device_views(left@) == rows::kept(
                    all.take(index as int),
                    keep,
                ),
            decreases self.devices@.len() - index,
        {
            let other = &self.devices[index];
            assert(all[index as int] == other@);
            assert(all.take(index + 1).drop_last() =~= all.take(index as int));
            assert(all.take(index + 1).last() == other@);
            if !same_text(other.client_id.as_str(), client_id) {
                let ghost before = left@;
                left.push(
                    DeviceRow {
                        client_id: other.client_id.clone(),
                        identity_key: copy_bytes(other.identity_key.as_slice()),
                        device_address: other.device_address.clone(),
                        token_hash: other.token_hash.clone(),
                        bundle: copy_bytes(other.bundle.as_slice()),
                        last_seen_at: other.last_seen_at,
                    },
                );
                assert(relay_store::device_views(left@) =~= relay_store::device_views(
                    before,
                ).push(other@));
            }
            index += 1;
        }
        assert(all.take(index as int) =~= all);
        self.devices = left;
    }
}

/// The store after a client was to be put on the allowlist, and whether it was.
pub open spec fn add_step(
    s: StoreView,
    request: AdminAllowlistRequest,
    identity: Seq<u8>,
    identity_valid: bool,
    now: u64,
) -> (StoreView, bool) {
    if identity_valid && !s.allowlist.contains_key(request.client_id@) {
        (
            StoreView {
                allowlist: s.allowlist.insert(
                    request.client_id@,
                    listed_row(request, identity, now),
                ),
                ..s
            },
            true,
        )
    } else {
        (s, false)
    }
}

/// The store after a client was to be revoked, and whether it was.
pub open spec fn revoke_step(s: StoreView, client_id: Seq<char>) -> (StoreView, bool) {
    if s.allowlist.contains_key(client_id) {
        (
            StoreView {
                allowlist: s.allowlist.insert(
                    client_id,
                    AllowView { active: false, ..s.allowlist[client_id] },
                ),
                devices: rows::kept(s.devices, is_other_client(client_id)),
                ..s
            },
            true,
        )
    } else {
        (s, false)
    }
}

/// A device of another client.
pub open spec fn is_other_client(client_id: Seq<char>) -> spec_fn(DeviceView) -> bool {
    |device: DeviceView| device.client_id != client_id
}

/// A client that was barred can do nothing: no token is its own, and it can neither
/// be challenged nor register.
pub proof fn law_revoked_client_is_shut_out(s: StoreView, client_id: Seq<char>, secret: Seq<char>, authorization: HeaderView)
    requires
        s.allowlist.contains_key(client_id),
        !s.allowlist[client_id].active,
    ensures
        !may_register(s, client_id),
        !may_be_challenged(s, client_id, secret),
        relay_store::token_device(s, authorization) != Some(client_id),
{
    match relay_http::bearer_token(authorization) {
        None => {},
        Some(token) => {
            let wanted = relay_store::has_token(
                s.allowlist,
                text::hex(primitives::sha256_digest(encode_utf8(token))),
            );
            rows::lemma_first_at(s.devices, wanted, 0);
        },
    }
}

// ---------------------------------------------------------------------------
// What is kept of clients and devices, row by row
// ---------------------------------------------------------------------------

/// Whether two allowlists hold the same for every client but one.
pub open spec fn same_but_for(
    left: Map<Seq<char>, AllowView>,
    right: Map<Seq<char>, AllowView>,
    client_id: Seq<char>,
) -> bool {
    forall|other: Seq<char>|
        other != client_id ==> (#[trigger] left.contains_key(other) <==> right.contains_key(other))
            && (left.contains_key(other) ==> left[other] == right[other])
}

/// An enrollment that is asked for waits under the ID of its identity for a quarter of
/// an hour, with everything that it says. Nothing else changes.
pub proof fn law_asked_enrollment_waits(
    s: StoreView,
    request: EnrollmentRequest,
    identity: Seq<u8>,
    canonical_identity: Seq<u8>,
    bundle: Seq<u8>,
    now: u64,
)
    requires
        now <= MAX_TIME,
    ensures
        ({
            let after = asked(s, request, identity, canonical_identity, bundle, now);
            let client = assigned_id(canonical_identity);
            &&& after.pending.contains_key(client)
            &&& after.pending[client].device_address == request.device_address@
            &&& after.pending[client].identity_key == identity
            &&& after.pending[client].fingerprint == request.fingerprint@
            &&& after.pending[client].bundle == bundle
            &&& after.pending[client].secret_hash == request.enrollment_secret_hash@
            &&& after.pending[client].created_at == now
            &&& after.pending[client].expires_at == now + 900
            &&& forall|other: Seq<char>|
                other != client ==> (#[trigger] after.pending.contains_key(other)
                    <==> s.pending.contains_key(other)) && (s.pending.contains_key(other)
                    ==> after.pending[other] == s.pending[other])
            &&& after == (StoreView { pending: after.pending, ..s })
        }),
{
}

/// An enrollment that waits and has not run out can be approved, and no other can. The
/// client is then on the allowlist with the identity, the fingerprint, the address and
/// the secret that were asked for, and is no longer waiting. It can be challenged with a
/// secret that has the digest, and with no other. Nobody else is touched.
pub proof fn law_approved_client_can_be_challenged(
    s: StoreView,
    client_id: Seq<char>,
    now: u64,
    secret: Seq<char>,
)
    requires
        now <= MAX_TIME,
    ensures
        approve_step(s, client_id, now).1 <==> s.pending.contains_key(client_id)
            && s.pending[client_id].expires_at >= now,
        !approve_step(s, client_id, now).1 ==> approve_step(s, client_id, now).0 == s,
        approve_step(s, client_id, now).1 ==> {
            let after = approve_step(s, client_id, now).0;
            let row = s.pending[client_id];
            &&& after.allowlist.contains_key(client_id)
            &&& after.allowlist[client_id].identity_key == row.identity_key
            &&& after.allowlist[client_id].fingerprint == row.fingerprint
            &&& after.allowlist[client_id].secret_hash == row.secret_hash
            &&& after.allowlist[client_id].device_address == row.device_address
            &&& after.allowlist[client_id].label == row.device_address
            &&& after.allowlist[client_id].active
            &&& !after.allowlist[client_id].used
            &&& after.allowlist[client_id].created_at == now
            &&& same_but_for(after.allowlist, s.allowlist, client_id)
            &&& after.pending == s.pending.remove(client_id)
            &&& after == (StoreView { allowlist: after.allowlist, pending: after.pending, ..s })
            &&& may_register(after, client_id)
            &&& may_be_challenged(after, client_id, secret) <==> row.secret_hash == text::hex(
                primitives::sha256_digest(encode_utf8(secret)),
            )
        },
{
    if approve_step(s, client_id, now).1 {
        lemma_same_encoding(
            s.pending[client_id].secret_hash,
            text::hex(primitives::sha256_digest(encode_utf8(secret))),
        );
    }
}

proof fn lemma_same_encoding(left: Seq<char>, right: Seq<char>)
    ensures
        encode_utf8(left) == encode_utf8(right) <==> left == right,
{
    encode_utf8_decode_utf8(left);
    encode_utf8_decode_utf8(right);
}

/// A rejected enrollment no longer waits and cannot be approved. Nobody else is touched.
pub proof fn law_rejected_enrollment_is_gone(s: StoreView, client_id: Seq<char>, now: u64)
    ensures
        reject_step(s, client_id).1 <==> s.pending.contains_key(client_id),
        !reject_step(s, client_id).0.pending.contains_key(client_id),
        forall|other: Seq<char>|
            other != client_id && s.pending.contains_key(other) ==> #[trigger] reject_step(
                s,
                client_id,
            ).0.pending.contains_key(other) && reject_step(s, client_id).0.pending[other]
                == s.pending[other],
        reject_step(s, client_id).0 == (StoreView {
            pending: reject_step(s, client_id).0.pending,
            ..s
        }),
        !approve_step(reject_step(s, client_id).0, client_id, now).1,
{
}

/// A client that is put on the allowlist can be challenged with its own secret. One that
/// is there already stays as it is.
pub proof fn law_listed_client_can_be_challenged(
    s: StoreView,
    request: AdminAllowlistRequest,
    identity: Seq<u8>,
    identity_valid: bool,
    now: u64,
)
    requires
        now <= MAX_TIME,
    ensures
        add_step(s, request, identity, identity_valid, now).1 <==> identity_valid
            && !s.allowlist.contains_key(request.client_id@),
        !add_step(s, request, identity, identity_valid, now).1 ==> add_step(
            s,
            request,
            identity,
            identity_valid,
            now,
        ).0 == s,
        add_step(s, request, identity, identity_valid, now).1 ==> {
            let after = add_step(s, request, identity, identity_valid, now).0;
            let client = request.client_id@;
            &&& after.allowlist.contains_key(client)
            &&& after.allowlist[client].identity_key == identity
            &&& after.allowlist[client].fingerprint == request.fingerprint@
            &&& after.allowlist[client].label == request.label@
            &&& after.allowlist[client].active
            &&& !after.allowlist[client].used
            &&& after.allowlist[client].created_at == now
            &&& may_be_challenged(after, client, request.enrollment_secret@)
            &&& may_register(after, client)
            &&& same_but_for(after.allowlist, s.allowlist, client)
            &&& after == (StoreView { allowlist: after.allowlist, ..s })
        },
{
}

/// A client may be challenged exactly where it is on the allowlist, is active, has not
/// registered, and shows a secret with the digest that is kept of its own.
pub proof fn law_who_may_be_challenged(s: StoreView, client_id: Seq<char>, secret: Seq<char>)
    ensures
        may_be_challenged(s, client_id, secret) <==> {
            &&& s.allowlist.contains_key(client_id)
            &&& s.allowlist[client_id].active
            &&& !s.allowlist[client_id].used
            &&& s.allowlist[client_id].secret_hash == text::hex(
                primitives::sha256_digest(encode_utf8(secret)),
            )
        },
        may_register(s, client_id) <==> {
            &&& s.allowlist.contains_key(client_id)
            &&& s.allowlist[client_id].active
            &&& !s.allowlist[client_id].used
        },
{
    lemma_same_encoding(
        s.allowlist[client_id].secret_hash,
        text::hex(primitives::sha256_digest(encode_utf8(secret))),
    );
}

/// A registration is to be signed only where the client may register, shows the identity
/// that is on the allowlist, and has a challenge that has not run out. What is to be
/// signed covers that very challenge, the client, its address and the bundle.
pub proof fn law_registration_answers_the_challenge(
    s: StoreView,
    request: RegisterRequest,
    identity: Option<Seq<u8>>,
    now: u64,
)
    requires
        register_claim(s, request, identity, now) is Ok,
    ensures
        ({
            let client = request.client_id@;
            let claim = register_claim(s, request, identity, now)->Ok_0;
            &&& s.allowlist.contains_key(client)
            &&& s.allowlist[client].active
            &&& !s.allowlist[client].used
            &&& identity == Some(s.allowlist[client].identity_key)
            &&& s.challenges.contains_key(client)
            &&& s.challenges[client].expires_at >= now
            &&& claim.payload == relay_signing::register_payload(
                client,
                request.device_address@,
                claim.bundle,
                s.challenges[client].challenge,
            )
            &&& primitives::base64_bytes(request.bundle@) == Some(claim.bundle)
            &&& primitives::base64_bytes(request.signature@) == Some(claim.signature)
        }),
{
}

/// A device that registers is behind every other device. The others stay in their order,
/// all but an earlier one of the same client or with the same token.
pub proof fn law_registered_device_joins_the_others(devices: Seq<DeviceView>, device: DeviceView) -> (at:
    Seq<int>)
    ensures
        rows::ascending(at, devices.len() as int),
        with_device(devices, device).len() == at.len() + 1,
        with_device(devices, device)[at.len() as int] == device,
        forall|k: int|
            0 <= k < at.len() ==> with_device(devices, device)[k] == devices[#[trigger] at[k]],
        forall|j: int|
            0 <= j < devices.len() ==> (at.contains(j) <==> (#[trigger] devices[j]).client_id
                != device.client_id && devices[j].token_hash != device.token_hash),
{
    let keep = |other: DeviceView|
        other.client_id != device.client_id && other.token_hash != device.token_hash;
    let at = rows::lemma_kept_positions(devices, keep);
    assert forall|j: int| 0 <= j < devices.len() implies (at.contains(j) <==> (
    #[trigger] devices[j]).client_id != device.client_id && devices[j].token_hash
        != device.token_hash) by {
        assert(keep(devices[j]) <==> devices[j].client_id != device.client_id
            && devices[j].token_hash != device.token_hash);
        if at.contains(j) {
            let k = choose|k: int| 0 <= k < at.len() && at[k] == j;
            assert(keep(devices[at[k]]));
        }
    }
    assert forall|k: int| 0 <= k < at.len() implies with_device(devices, device)[k]
        == devices[#[trigger] at[k]] by {
        assert(rows::kept(devices, keep)[k] == devices[at[k]]);
    }
    at
}

/// A registration puts the client's own identity, address, bundle and token digest down
/// as a device, marks the client as registered at that address, and uses up its
/// challenge. Every other client and every other challenge stays.
pub proof fn law_registration_is_written_down(
    s: StoreView,
    request: RegisterRequest,
    bundle: Seq<u8>,
    token: Seq<u8>,
    now: u64,
)
    requires
        now <= MAX_TIME,
        may_register(s, request.client_id@),
    ensures
        ({
            let after = registered(s, request, bundle, token, now);
            let client = request.client_id@;
            let device = after.devices.last();
            &&& after.devices.len() > 0
            &&& device.client_id == client
            &&& device.identity_key == s.allowlist[client].identity_key
            &&& device.device_address == request.device_address@
            &&& device.bundle == bundle
            &&& device.token_hash == text::hex(
                primitives::sha256_digest(encode_utf8(primitives::base64_url(token))),
            )
            &&& device.last_seen_at == now
            &&& after.allowlist.contains_key(client)
            &&& after.allowlist[client].used
            &&& after.allowlist[client].device_address == request.device_address@
            &&& after.allowlist[client].identity_key == s.allowlist[client].identity_key
            &&& after.allowlist[client].fingerprint == s.allowlist[client].fingerprint
            &&& after.allowlist[client].secret_hash == s.allowlist[client].secret_hash
            &&& after.allowlist[client].active
            &&& same_but_for(after.allowlist, s.allowlist, client)
            &&& !after.challenges.contains_key(client)
            &&& forall|other: Seq<char>|
                other != client ==> (#[trigger] after.challenges.contains_key(other)
                    <==> s.challenges.contains_key(other)) && (s.challenges.contains_key(other)
                    ==> after.challenges[other] == s.challenges[other])
            &&& after.pending == s.pending
            &&& after.messages == s.messages
            &&& after.next_id == s.next_id
            &&& after.nonces == s.nonces
            &&& after.contacts == s.contacts
        }),
{
    let at = law_registered_device_joins_the_others(
        s.devices,
        registered_device(s, request, bundle, token, now),
    );
}

/// The token that a registration hands out stands for the client from then on: a request
/// that bears it is taken as the client's.
pub proof fn law_token_stands_for_the_client(
    s: StoreView,
    request: RegisterRequest,
    bundle: Seq<u8>,
    token: Seq<u8>,
    now: u64,
    authorization: HeaderView,
)
    requires
        may_register(s, request.client_id@),
        relay_http::bearer_token(authorization) == Some(primitives::base64_url(token)),
        0 < primitives::base64_url(token).len(),
        encode_utf8(primitives::base64_url(token)).len() <= MAX_SIGNATURE_B64_BYTES,
    ensures
        relay_store::token_device(registered(s, request, bundle, token, now), authorization)
            == Some(request.client_id@),
{
    let after = registered(s, request, bundle, token, now);
    let device = registered_device(s, request, bundle, token, now);
    let at = law_registered_device_joins_the_others(s.devices, device);
    let wanted = relay_store::has_token(after.allowlist, device.token_hash);
    assert forall|i: int| 0 <= i < at.len() implies !wanted(#[trigger] after.devices[i]) by {
        assert(after.devices[i] == s.devices[at[i]]);
        assert(at.contains(at[i]));
    }
    assert(wanted(after.devices[at.len() as int]));
    rows::lemma_first_is(after.devices, wanted, at.len() as int);
}

/// Revoking a client that is on the allowlist makes it inactive and takes its devices
/// away. Every other client and every other device stays, in its order.
pub proof fn law_revoked_client_loses_its_devices(s: StoreView, client_id: Seq<char>) -> (at: Seq<
    int,
>)
    ensures
        revoke_step(s, client_id).1 <==> s.allowlist.contains_key(client_id),
        !revoke_step(s, client_id).1 ==> revoke_step(s, client_id).0 == s,
        revoke_step(s, client_id).1 ==> {
            let after = revoke_step(s, client_id).0;
            &&& after.allowlist.contains_key(client_id)
            &&& after.allowlist[client_id] == (AllowView {
                active: false,
                ..s.allowlist[client_id]
            })
            &&& same_but_for(after.allowlist, s.allowlist, client_id)
            &&& after == (StoreView { allowlist: after.allowlist, devices: after.devices, ..s })
            &&& rows::ascending(at, s.devices.len() as int)
            &&& after.devices.len() == at.len()
            &&& forall|k: int|
                0 <= k < at.len() ==> after.devices[k] == s.devices[#[trigger] at[k]]
            &&& forall|j: int|
                0 <= j < s.devices.len() ==> (at.contains(j) <==> (
                #[trigger] s.devices[j]).client_id != client_id)
        },
{
    let keep = is_other_client(client_id);
    let at = rows::lemma_kept_positions(s.devices, keep);
    assert forall|j: int| 0 <= j < s.devices.len() implies (at.contains(j) <==> (
    #[trigger] s.devices[j]).client_id != client_id) by {
        assert(keep(s.devices[j]) <==> s.devices[j].client_id != client_id);
        if at.contains(j) {
            let k = choose|k: int| 0 <= k < at.len() && at[k] == j;
            assert(keep(s.devices[at[k]]));
        }
    }
    at
}

/// An administrator is let in with the relay's own token and no other, and with none
/// where the relay has none. The identity that is listed is the one in the request.
pub proof fn law_administrator_has_the_token(
    headers: RequestHeaders,
    request: AdminAllowlistRequest,
    expected: Seq<char>,
)
    requires
        json_request(headers) is Ok,
        allowlist_check(request) is Ok,
    ensures
        admin_check(headers, request, None) == Err::<Seq<u8>, ErrorView>(relay_http::is_not_found()),
        relay_http::bearer_token(headers.authorization@) == Some(expected) ==> (admin_check(
            headers,
            request,
            Some(expected),
        ) matches Ok(identity) && primitives::base64_bytes(request.identity_key@) == Some(identity)),
        relay_http::bearer_token(headers.authorization@) != Some(expected) ==> admin_check(
            headers,
            request,
            Some(expected),
        ) == Err::<Seq<u8>, ErrorView>(relay_http::is_unauthorized()),
{
    encode_utf8_decode_utf8(expected);
    if let Some(provided) = relay_http::bearer_token(headers.authorization@) {
        encode_utf8_decode_utf8(provided);
    }
}

/// The texts of a request are bounded, and the first that is too long is the one that is
/// named.
pub proof fn law_texts_of_requests_are_bounded(
    s: StoreView,
    headers: RequestHeaders,
    listing: AdminAllowlistRequest,
    registration: RegisterRequest,
    challenge: ChallengeRequest,
)
    requires
        json_request(headers) is Ok,
    ensures
        ({
            let client = encode_utf8(listing.client_id@).len();
            let fingerprint = encode_utf8(listing.fingerprint@).len();
            let secret = encode_utf8(listing.enrollment_secret@).len();
            let label = encode_utf8(listing.label@).len();
            let checked = allowlist_check(listing);
            &&& client > 256 ==> checked == Err::<Seq<u8>, Seq<char>>(
                relay_http::too_long(256, "client ID"@),
            )
            &&& client <= 256 && fingerprint > 256 ==> checked == Err::<Seq<u8>, Seq<char>>(
                relay_http::too_long(256, "fingerprint"@),
            )
            &&& client <= 256 && fingerprint <= 256 && secret > 512 ==> checked == Err::<
                Seq<u8>,
                Seq<char>,
            >(relay_http::too_long(512, "enrollment secret"@))
            &&& client <= 256 && fingerprint <= 256 && secret <= 512 && label > 256 ==> checked
                == Err::<Seq<u8>, Seq<char>>(relay_http::too_long(256, "label"@))
        }),
        ({
            let client = encode_utf8(registration.client_id@).len();
            let address = encode_utf8(registration.device_address@).len();
            let read = register_identity(s, headers, registration);
            &&& client > 256 ==> read == Err::<Seq<u8>, ErrorView>(
                (ErrorView { status: 400, message: relay_http::too_long(256, "client ID"@) }),
            )
            &&& client <= 256 && address > 256 ==> read == Err::<Seq<u8>, ErrorView>(
                (ErrorView { status: 400, message: relay_http::too_long(256, "device address"@) }),
            )
        }),
        ({
            let client = encode_utf8(challenge.client_id@).len();
            let secret = encode_utf8(challenge.enrollment_secret@).len();
            let checked = challenge_check(headers, challenge);
            &&& client > 256 ==> checked == Err::<(), Seq<char>>(
                relay_http::too_long(256, "client ID"@),
            )
            &&& client <= 256 && secret > 512 ==> checked == Err::<(), Seq<char>>(
                relay_http::too_long(512, "enrollment secret"@),
            )
            &&& checked is Ok <==> client <= 256 && secret <= 512
        }),
{
}

/// A hash is sixty-four digits of the hexadecimal notation, in capitals or not, and
/// nothing else is one.
pub proof fn law_hash_is_hexadecimal(byte: u8)
    ensures
        is_hex_digit(byte) <==> {
            ||| '0' as u8 <= byte && byte <= '9' as u8
            ||| 'a' as u8 <= byte && byte <= 'f' as u8
            ||| 'A' as u8 <= byte && byte <= 'F' as u8
        },
{
}

} // verus!
