//! What the relay holds: devices, nonces, and the messages of every mailbox.
//!
//! Rows are kept and loaded outside. Every operation here says which rows there are
//! afterwards.
use vstd::prelude::*;
use vstd::utf8::*;

use crate::bytes::copy_bytes;
use crate::primitives;
use crate::primitives::{b64, b64decode, hash};
use crate::protocol::{Submit, SubmitView};
use crate::relay_http;
use crate::relay_http::{
    bearer, encode_binary_messages, internal, not_found, replay, unauthorized, ApiError, ErrorView,
    Header, HeaderView, MessageResponse, RequestHeaders, ResponseView, MAX_SIGNATURE_B64_BYTES,
};
use crate::relay_signing;
use crate::relay_signing::write_request_payload;
use crate::rows;
use crate::table::TextTable;
use crate::text;
use crate::text::{parse_u64, same_text};

verus! {

/// The last second that the relay's clock may show, a day before its rows could not
/// hold the time.
pub const MAX_TIME: u64 = 9_223_372_036_854_689_407;

/// How far the time of a request may be off, in seconds.
pub const MAX_CLOCK_SKEW: u64 = 300;

/// How long a nonce is kept, in seconds.
pub const NONCE_LIFETIME: u64 = 600;

/// The longest nonce, in bytes.
pub const MAX_NONCE_BYTES: usize = 128;

/// How many messages are handed out at once.
pub const MAX_BATCH: usize = 100;

// ---------------------------------------------------------------------------
// Rows
// ---------------------------------------------------------------------------

/// A client that may register a device.
#[derive(Debug)]
pub struct AllowRow {
    pub identity_key: Vec<u8>,
    pub fingerprint: String,
    pub secret_hash: String,
    pub used: bool,
    pub device_address: String,
    pub active: bool,
    pub label: String,
    pub created_at: i64,
}

/// The contents of an [`AllowRow`].
#[verifier::ext_equal]
pub struct AllowView {
    pub identity_key: Seq<u8>,
    pub fingerprint: Seq<char>,
    pub secret_hash: Seq<char>,
    pub used: bool,
    pub device_address: Seq<char>,
    pub active: bool,
    pub label: Seq<char>,
    pub created_at: i64,
}

impl View for AllowRow {
    type V = AllowView;

    open spec fn view(&self) -> AllowView {
        AllowView {
            identity_key: self.identity_key@,
            fingerprint: self.fingerprint@,
            secret_hash: self.secret_hash@,
            used: self.used,
            device_address: self.device_address@,
            active: self.active,
            label: self.label@,
            created_at: self.created_at,
        }
    }
}

/// A client that has asked for enrollment.
#[derive(Debug)]
pub struct PendingRow {
    pub device_address: String,
    pub identity_key: Vec<u8>,
    pub fingerprint: String,
    pub bundle: Vec<u8>,
    pub secret_hash: String,
    pub created_at: i64,
    pub expires_at: i64,
}

/// The contents of a [`PendingRow`].
#[verifier::ext_equal]
pub struct PendingView {
    pub device_address: Seq<char>,
    pub identity_key: Seq<u8>,
    pub fingerprint: Seq<char>,
    pub bundle: Seq<u8>,
    pub secret_hash: Seq<char>,
    pub created_at: i64,
    pub expires_at: i64,
}

impl View for PendingRow {
    type V = PendingView;

    open spec fn view(&self) -> PendingView {
        PendingView {
            device_address: self.device_address@,
            identity_key: self.identity_key@,
            fingerprint: self.fingerprint@,
            bundle: self.bundle@,
            secret_hash: self.secret_hash@,
            created_at: self.created_at,
            expires_at: self.expires_at,
        }
    }
}

/// A challenge that a client has to sign.
#[derive(Debug)]
pub struct ChallengeRow {
    pub challenge: Vec<u8>,
    pub expires_at: i64,
}

/// The contents of a [`ChallengeRow`].
#[verifier::ext_equal]
pub struct ChallengeView {
    pub challenge: Seq<u8>,
    pub expires_at: i64,
}

impl View for ChallengeRow {
    type V = ChallengeView;

    open spec fn view(&self) -> ChallengeView {
        ChallengeView { challenge: self.challenge@, expires_at: self.expires_at }
    }
}

/// A registered device.
#[derive(Debug)]
pub struct DeviceRow {
    pub client_id: String,
    pub identity_key: Vec<u8>,
    pub device_address: String,
    pub token_hash: String,
    pub bundle: Vec<u8>,
    pub last_seen_at: i64,
}

/// The contents of a [`DeviceRow`].
#[verifier::ext_equal]
pub struct DeviceView {
    pub client_id: Seq<char>,
    pub identity_key: Seq<u8>,
    pub device_address: Seq<char>,
    pub token_hash: Seq<char>,
    pub bundle: Seq<u8>,
    pub last_seen_at: i64,
}

impl View for DeviceRow {
    type V = DeviceView;

    open spec fn view(&self) -> DeviceView {
        DeviceView {
            client_id: self.client_id@,
            identity_key: self.identity_key@,
            device_address: self.device_address@,
            token_hash: self.token_hash@,
            bundle: self.bundle@,
            last_seen_at: self.last_seen_at,
        }
    }
}

/// A nonce that a device has used.
#[derive(Debug)]
pub struct NonceRow {
    pub client_id: String,
    pub nonce: String,
    pub expires_at: i64,
}

/// The contents of a [`NonceRow`].
#[verifier::ext_equal]
pub struct NonceView {
    pub client_id: Seq<char>,
    pub nonce: Seq<char>,
    pub expires_at: i64,
}

impl View for NonceRow {
    type V = NonceView;

    open spec fn view(&self) -> NonceView {
        NonceView { client_id: self.client_id@, nonce: self.nonce@, expires_at: self.expires_at }
    }
}

/// A message in a mailbox.
#[derive(Debug)]
pub struct MessageRow {
    pub server_id: i64,
    pub sender: String,
    pub recipient: String,
    pub message_id: String,
    pub ciphertext: Vec<u8>,
    pub accepted_at: i64,
    pub expires_at: Option<i64>,
    pub acknowledged_at: Option<i64>,
}

/// The contents of a [`MessageRow`].
#[verifier::ext_equal]
pub struct MailView {
    pub server_id: i64,
    pub sender: Seq<char>,
    pub recipient: Seq<char>,
    pub message_id: Seq<char>,
    pub ciphertext: Seq<u8>,
    pub accepted_at: i64,
    pub expires_at: Option<i64>,
    pub acknowledged_at: Option<i64>,
}

impl View for MessageRow {
    type V = MailView;

    open spec fn view(&self) -> MailView {
        MailView {
            server_id: self.server_id,
            sender: self.sender@,
            recipient: self.recipient@,
            message_id: self.message_id@,
            ciphertext: self.ciphertext@,
            accepted_at: self.accepted_at,
            expires_at: self.expires_at,
            acknowledged_at: self.acknowledged_at,
        }
    }
}

/// What became of a request for contact.
#[derive(Clone, Copy, Debug, PartialEq, Eq, Structural)]
pub enum ContactStatus {
    Pending,
    Accepted,
    Rejected,
}

/// A request for contact.
#[derive(Debug)]
pub struct ContactRow {
    pub request_id: String,
    pub sender: String,
    pub recipient: String,
    pub sender_name: String,
    pub sender_fingerprint: String,
    pub bundle: Vec<u8>,
    pub status: ContactStatus,
    pub created_at: i64,
    pub expires_at: i64,
}

/// The contents of a [`ContactRow`].
#[verifier::ext_equal]
pub struct ContactView {
    pub request_id: Seq<char>,
    pub sender: Seq<char>,
    pub recipient: Seq<char>,
    pub sender_name: Seq<char>,
    pub sender_fingerprint: Seq<char>,
    pub bundle: Seq<u8>,
    pub status: ContactStatus,
    pub created_at: i64,
    pub expires_at: i64,
}

impl View for ContactRow {
    type V = ContactView;

    open spec fn view(&self) -> ContactView {
        ContactView {
            request_id: self.request_id@,
            sender: self.sender@,
            recipient: self.recipient@,
            sender_name: self.sender_name@,
            sender_fingerprint: self.sender_fingerprint@,
            bundle: self.bundle@,
            status: self.status,
            created_at: self.created_at,
            expires_at: self.expires_at,
        }
    }
}

// ---------------------------------------------------------------------------
// The store
// ---------------------------------------------------------------------------

/// Everything that the relay holds.
#[derive(Debug)]
pub struct RelayStore {
    pub allowlist: TextTable<AllowRow>,
    pub pending: TextTable<PendingRow>,
    pub challenges: TextTable<ChallengeRow>,
    pub devices: Vec<DeviceRow>,
    pub nonces: Vec<NonceRow>,
    pub messages: Vec<MessageRow>,
    /// The number of the next message.
    pub next_id: i64,
    pub contacts: Vec<ContactRow>,
}

/// The contents of a [`RelayStore`].
#[verifier::ext_equal]
pub struct StoreView {
    pub allowlist: Map<Seq<char>, AllowView>,
    pub pending: Map<Seq<char>, PendingView>,
    pub challenges: Map<Seq<char>, ChallengeView>,
    pub devices: Seq<DeviceView>,
    pub nonces: Seq<NonceView>,
    pub messages: Seq<MailView>,
    pub next_id: i64,
    pub contacts: Seq<ContactView>,
}

/// The contents of every client of a table.
pub open spec fn allow_views(rows: Map<Seq<char>, AllowRow>) -> Map<Seq<char>, AllowView> {
    Map::new(|key: Seq<char>| rows.contains_key(key), |key: Seq<char>| rows[key]@)
}

/// The contents of every request of a table.
pub open spec fn pending_views(rows: Map<Seq<char>, PendingRow>) -> Map<Seq<char>, PendingView> {
    Map::new(|key: Seq<char>| rows.contains_key(key), |key: Seq<char>| rows[key]@)
}

/// The contents of every challenge of a table.
pub open spec fn challenge_views(rows: Map<Seq<char>, ChallengeRow>) -> Map<
    Seq<char>,
    ChallengeView,
> {
    Map::new(|key: Seq<char>| rows.contains_key(key), |key: Seq<char>| rows[key]@)
}

pub open spec fn device_views(rows: Seq<DeviceRow>) -> Seq<DeviceView> {
    rows.map_values(|row: DeviceRow| row@)
}

pub open spec fn nonce_views(rows: Seq<NonceRow>) -> Seq<NonceView> {
    rows.map_values(|row: NonceRow| row@)
}

pub open spec fn mail_views(rows: Seq<MessageRow>) -> Seq<MailView> {
    rows.map_values(|row: MessageRow| row@)
}

pub open spec fn contact_views(rows: Seq<ContactRow>) -> Seq<ContactView> {
    rows.map_values(|row: ContactRow| row@)
}

impl View for RelayStore {
    type V = StoreView;

    open spec fn view(&self) -> StoreView {
        StoreView {
            allowlist: allow_views(self.allowlist@),
            pending: pending_views(self.pending@),
            challenges: challenge_views(self.challenges@),
            devices: device_views(self.devices@),
            nonces: nonce_views(self.nonces@),
            messages: mail_views(self.messages@),
            next_id: self.next_id,
            contacts: contact_views(self.contacts@),
        }
    }
}

/// Messages are numbered in the order in which they were taken.
pub open spec fn numbered(messages: Seq<MailView>, next_id: i64) -> bool {
    &&& forall|i: int, j: int|
        0 <= i < j < messages.len() ==> (#[trigger] messages[i]).server_id < (
        #[trigger] messages[j]).server_id
    &&& forall|i: int|
        0 <= i < messages.len() ==> 0 < (#[trigger] messages[i]).server_id < next_id
    &&& 0 < next_id
}

impl RelayStore {
    pub open spec fn wf(self) -> bool {
        &&& self.allowlist.wf()
        &&& self.pending.wf()
        &&& self.challenges.wf()
        &&& numbered(mail_views(self.messages@), self.next_id)
    }

    /// A relay that holds nothing.
    pub fn new() -> (store: RelayStore)
        ensures
            store.wf(),
            store@ == (StoreView {
                allowlist: Map::empty(),
                pending: Map::empty(),
                challenges: Map::empty(),
                devices: Seq::empty(),
                nonces: Seq::empty(),
                messages: Seq::empty(),
                next_id: 1,
                contacts: Seq::empty(),
            }),
    {
        let store = RelayStore {
            allowlist: TextTable::new(),
            pending: TextTable::new(),
            challenges: TextTable::new(),
            devices: Vec::new(),
            nonces: Vec::new(),
            messages: Vec::new(),
            next_id: 1,
            contacts: Vec::new(),
        };
        assert(store@.allowlist =~= Map::empty());
        assert(store@.pending =~= Map::empty());
        assert(store@.challenges =~= Map::empty());
        assert(store@.devices =~= Seq::empty());
        assert(store@.nonces =~= Seq::empty());
        assert(store@.messages =~= Seq::empty());
        assert(store@.contacts =~= Seq::empty());
        store
    }
}

// ---------------------------------------------------------------------------
// Devices
// ---------------------------------------------------------------------------

/// The device with an ID.
pub open spec fn has_id(client_id: Seq<char>) -> spec_fn(DeviceView) -> bool {
    |device: DeviceView| device.client_id == client_id
}

/// The device with an address.
pub open spec fn has_address(address: Seq<char>) -> spec_fn(DeviceView) -> bool {
    |device: DeviceView| device.device_address == address
}

/// The device with an ID or an address.
pub open spec fn is_called(name: Seq<char>) -> spec_fn(DeviceView) -> bool {
    |device: DeviceView| device.client_id == name || device.device_address == name
}

/// The device that has a token, if its client may use the relay.
pub open spec fn has_token(allowlist: Map<Seq<char>, AllowView>, token_hash: Seq<char>) -> spec_fn(
    DeviceView,
) -> bool {
    |device: DeviceView|
        device.token_hash == token_hash && allowlist.contains_key(device.client_id)
            && allowlist[device.client_id].active
}

/// The address of the device with an ID.
pub open spec fn address_of(devices: Seq<DeviceView>, client_id: Seq<char>) -> Option<Seq<char>> {
    let index = rows::first_at(devices, has_id(client_id), 0);
    if index < devices.len() {
        Some(devices[index].device_address)
    } else {
        None
    }
}

impl RelayStore {
    pub(crate) fn device_with_id(&self, client_id: &str) -> (index: usize)
        ensures
            index <= self.devices@.len(),
            index == rows::first_at(self@.devices, has_id(client_id@), 0),
            index < self.devices@.len() ==> self.devices@[index as int].client_id@ == client_id@,
    {
        let mut index: usize = 0;
        while index < self.devices.len()
            invariant
                index <= self.devices@.len(),
                rows::first_at(self@.devices, has_id(client_id@), 0) == rows::first_at(
                    self@.devices,
                    has_id(client_id@),
                    index as int,
                ),
            decreases self.devices@.len() - index,
        {
            assert(self@.devices[index as int] == self.devices@[index as int]@);
            if same_text(self.devices[index].client_id.as_str(), client_id) {
                return index;
            }
            index += 1;
        }
        index
    }

    pub(crate) fn device_with_address(&self, address: &str) -> (index: usize)
        ensures
            index <= self.devices@.len(),
            index == rows::first_at(self@.devices, has_address(address@), 0),
    {
        let mut index: usize = 0;
        while index < self.devices.len()
            invariant
                index <= self.devices@.len(),
                rows::first_at(self@.devices, has_address(address@), 0) == rows::first_at(
                    self@.devices,
                    has_address(address@),
                    index as int,
                ),
            decreases self.devices@.len() - index,
        {
            assert(self@.devices[index as int] == self.devices@[index as int]@);
            if same_text(self.devices[index].device_address.as_str(), address) {
                return index;
            }
            index += 1;
        }
        index
    }

    pub(crate) fn device_called(&self, name: &str) -> (index: usize)
        ensures
            index <= self.devices@.len(),
            index == rows::first_at(self@.devices, is_called(name@), 0),
    {
        let mut index: usize = 0;
        while index < self.devices.len()
            invariant
                index <= self.devices@.len(),
                rows::first_at(self@.devices, is_called(name@), 0) == rows::first_at(
                    self@.devices,
                    is_called(name@),
                    index as int,
                ),
            decreases self.devices@.len() - index,
        {
            assert(self@.devices[index as int] == self.devices@[index as int]@);
            if same_text(self.devices[index].client_id.as_str(), name) || same_text(
                self.devices[index].device_address.as_str(),
                name,
            ) {
                return index;
            }
            index += 1;
        }
        index
    }

    fn device_with_token(&self, token_hash: &str) -> (index: usize)
        requires
            self.wf(),
        ensures
            index <= self.devices@.len(),
            index == rows::first_at(self@.devices, has_token(self@.allowlist, token_hash@), 0),
    {
        let mut index: usize = 0;
        while index < self.devices.len()
            invariant
                self.wf(),
                index <= self.devices@.len(),
                rows::first_at(self@.devices, has_token(self@.allowlist, token_hash@), 0) == rows::first_at(
                    self@.devices,
                    has_token(self@.allowlist, token_hash@),
                    index as int,
                ),
            decreases self.devices@.len() - index,
        {
            assert(self@.devices[index as int] == self.devices@[index as int]@);
            if same_text(self.devices[index].token_hash.as_str(), token_hash) {
                if let Some(client) = self.allowlist.get(self.devices[index].client_id.as_str()) {
                    if client.active {
                        return index;
                    }
                }
            }
            index += 1;
        }
        index
    }
}

// ---------------------------------------------------------------------------
// Signed requests
// ---------------------------------------------------------------------------

/// A request whose signature has to be checked.
#[derive(Debug)]
pub struct SignedRequest {
    pub device: String,
    pub identity_key: Vec<u8>,
    pub payload: Vec<u8>,
    pub signature: Vec<u8>,
    pub nonce: String,
}

/// The contents of a [`SignedRequest`].
#[verifier::ext_equal]
pub struct SignedView {
    pub device: Seq<char>,
    pub identity_key: Seq<u8>,
    pub payload: Seq<u8>,
    pub signature: Seq<u8>,
    pub nonce: Seq<char>,
}

impl View for SignedRequest {
    type V = SignedView;

    open spec fn view(&self) -> SignedView {
        SignedView {
            device: self.device@,
            identity_key: self.identity_key@,
            payload: self.payload@,
            signature: self.signature@,
            nonce: self.nonce@,
        }
    }
}

/// Whether two times are close enough for a request.
pub open spec fn is_timely(timestamp: u64, now: u64) -> bool {
    timestamp - now <= MAX_CLOCK_SKEW && now - timestamp <= MAX_CLOCK_SKEW
}

/// What has to be checked of a request that names its device, if it can be.
pub open spec fn signed_by(
    s: StoreView,
    device: Seq<char>,
    method: Seq<char>,
    path: Seq<char>,
    body: Seq<u8>,
    nonce: Seq<char>,
    timestamp: u64,
    signature: Seq<char>,
    now: u64,
) -> Option<SignedView> {
    let index = rows::first_at(s.devices, has_id(device), 0);
    if is_timely(timestamp, now) && 0 < nonce.len() && encode_utf8(nonce).len() <= MAX_NONCE_BYTES
        && encode_utf8(signature).len() <= MAX_SIGNATURE_B64_BYTES && index < s.devices.len()
        && primitives::base64_bytes(signature) is Some {
        Some(
            SignedView {
                device,
                identity_key: s.devices[index].identity_key,
                payload: relay_signing::request_payload(method, path, body, nonce, timestamp),
                signature: primitives::base64_bytes(signature)->0,
                nonce,
            },
        )
    } else {
        None
    }
}

/// The device that a request's token belongs to.
pub open spec fn token_device(s: StoreView, authorization: HeaderView) -> Option<Seq<char>> {
    match relay_http::bearer_token(authorization) {
        None => None,
        Some(token) => {
            let wanted = has_token(
                s.allowlist,
                text::hex(primitives::sha256_digest(encode_utf8(token))),
            );
            let index = rows::first_at(s.devices, wanted, 0);
            if 0 < token.len() && encode_utf8(token).len() <= MAX_SIGNATURE_B64_BYTES && index
                < s.devices.len() {
                Some(s.devices[index].client_id)
            } else {
                None
            }
        },
    }
}

/// What has to be checked of a request, if it can be.
pub open spec fn request_to_check(
    s: StoreView,
    headers: RequestHeaders,
    method: Seq<char>,
    path: Seq<char>,
    body: Seq<u8>,
    expected_device: Option<Seq<char>>,
    now: u64,
) -> Option<SignedView> {
    match token_device(s, headers.authorization@) {
        None => None,
        Some(device) => match (
            relay_http::header_text(headers.nonce@),
            relay_http::header_text(headers.timestamp@),
            relay_http::header_text(headers.signature@),
        ) {
            (Some(nonce), Some(timestamp), Some(signature)) => match text::parsed_u64(timestamp) {
                Some(time) => if expected_device is Some && expected_device->0 != device {
                    None
                } else {
                    signed_by(s, device, method, path, body, nonce, time, signature, now)
                },
                None => None,
            },
            _ => None,
        },
    }
}

/// The nonces that are still kept.
pub open spec fn live_nonces(nonces: Seq<NonceView>, now: i64) -> Seq<NonceView> {
    rows::kept(nonces, |row: NonceView| row.expires_at >= now)
}

/// Whether a device has used a nonce.
pub open spec fn nonce_used(nonces: Seq<NonceView>, device: Seq<char>, nonce: Seq<char>) -> bool {
    exists|i: int|
        0 <= i < nonces.len() && (#[trigger] nonces[i]).client_id == device && nonces[i].nonce
            == nonce
}

/// What comes of a request once its signature is known to be right or wrong: the
/// nonces that there are then, and the error.
pub open spec fn nonce_step(
    nonces: Seq<NonceView>,
    device: Seq<char>,
    nonce: Seq<char>,
    valid: bool,
    now: u64,
) -> (Seq<NonceView>, Option<ErrorView>) {
    let live = live_nonces(nonces, now as i64);
    if !valid {
        (nonces, Some(relay_http::is_unauthorized()))
    } else if nonce_used(live, device, nonce) {
        (live, Some(relay_http::is_replay()))
    } else {
        (
            live.push(
                NonceView { client_id: device, nonce, expires_at: (now + NONCE_LIFETIME) as i64 },
            ),
            None,
        )
    }
}

fn readable(header: &Header) -> (value: Option<&String>)
    ensures
        match relay_http::header_text(header@) {
            Some(shown) => value matches Some(found) && found@ == shown,
            None => value is None,
        },
{
    match header {
        Header::Text(value) => Some(value),
        _ => None,
    }
}

impl RelayStore {
    /// Prepares the check of a request that names its device.
    pub fn verify_signature(
        &self,
        device: &str,
        method: &str,
        path: &str,
        body: &[u8],
        nonce: &str,
        timestamp: u64,
        signature: &str,
        now: u64,
    ) -> (result: Result<SignedRequest, ApiError>)
        ensures
            match signed_by(
                self@,
                device@,
                method@,
                path@,
                body@,
                nonce@,
                timestamp,
                signature@,
                now,
            ) {
                Some(value) => result matches Ok(request) && request@ == value,
                None => result matches Err(error) && error@ == relay_http::is_unauthorized(),
            },
    {
        let off: u64 = if timestamp > now {
            timestamp - now
        } else {
            now - timestamp
        };
        if off > MAX_CLOCK_SKEW || nonce.is_empty() || nonce.as_bytes().len() > MAX_NONCE_BYTES
            || signature.as_bytes().len() > MAX_SIGNATURE_B64_BYTES {
            return Err(unauthorized());
        }
        let index: usize = self.device_with_id(device);
        if index >= self.devices.len() {
            return Err(unauthorized());
        }
        assert(self@.devices[index as int] == self.devices@[index as int]@);
        match b64decode(signature) {
            None => Err(unauthorized()),
            Some(decoded) => Ok(
                SignedRequest {
                    device: device.to_owned(),
                    identity_key: copy_bytes(self.devices[index].identity_key.as_slice()),
                    payload: write_request_payload(method, path, body, nonce, timestamp),
                    signature: decoded,
                    nonce: nonce.to_owned(),
                },
            ),
        }
    }

    fn authorized_device(&self, headers: &RequestHeaders) -> (device: Option<String>)
        requires
            self.wf(),
        ensures
            match token_device(self@, headers.authorization@) {
                Some(value) => device matches Some(found) && found@ == value,
                None => device is None,
            },
    {
        match bearer(headers) {
            None => None,
            Some(token) => {
                if token.as_str().is_empty() || token.as_str().as_bytes().len()
                    > MAX_SIGNATURE_B64_BYTES {
                    return None;
                }
                let index: usize = self.device_with_token(hash(token.as_str()).as_str());
                if index < self.devices.len() {
                    assert(self@.devices[index as int] == self.devices@[index as int]@);
                    Some(self.devices[index].client_id.clone())
                } else {
                    None
                }
            },
        }
    }

    /// Prepares the check of a request: its token must belong to a device whose
    /// client may use the relay, and where a device is expected, to that one.
    pub fn authenticate_request(
        &self,
        headers: &RequestHeaders,
        method: &str,
        path: &str,
        body: &[u8],
        expected_device: Option<&str>,
        now: u64,
    ) -> (result: Result<SignedRequest, ApiError>)
        requires
            self.wf(),
        ensures
            match request_to_check(
                self@,
                *headers,
                method@,
                path@,
                body@,
                match expected_device {
                    Some(expected) => Some(expected@),
                    None => None,
                },
                now,
            ) {
                Some(value) => result matches Ok(request) && request@ == value,
                None => result matches Err(error) && error@ == relay_http::is_unauthorized(),
            },
    {
        let device = match self.authorized_device(headers) {
            Some(device) => device,
            None => return Err(unauthorized()),
        };
        if let Some(expected) = expected_device {
            if !same_text(expected, device.as_str()) {
                return Err(unauthorized());
            }
        }
        let nonce = match readable(&headers.nonce) {
            Some(nonce) => nonce,
            None => return Err(unauthorized()),
        };
        let shown = match readable(&headers.timestamp) {
            Some(shown) => shown,
            None => return Err(unauthorized()),
        };
        let timestamp: u64 = match parse_u64(shown.as_str()) {
            Some(timestamp) => timestamp,
            None => return Err(unauthorized()),
        };
        let signature = match readable(&headers.signature) {
            Some(signature) => signature,
            None => return Err(unauthorized()),
        };
        self.verify_signature(
            device.as_str(),
            method,
            path,
            body,
            nonce.as_str(),
            timestamp,
            signature.as_str(),
            now,
        )
    }

    /// Takes a request whose signature has been checked, unless its nonce was used
    /// before.
    pub fn accept_request(&mut self, request: &SignedRequest, valid: bool, now: u64) -> (result:
        Result<(), ApiError>)
        requires
            old(self).wf(),
            now <= MAX_TIME,
        ensures
            final(self).wf(),
            ({
                let step = nonce_step(old(self)@.nonces, request@.device, request@.nonce, valid, now);
                &&& final(self)@ == (StoreView { nonces: step.0, ..old(self)@ })
                &&& match step.1 {
                    Some(refusal) => result matches Err(error) && error@ == refusal,
                    None => result is Ok,
                }
            }),
    {
        if !valid {
            return Err(unauthorized());
        }
        let ghost all = self@.nonces;
        let ghost alive = |row: NonceView| row.expires_at >= now as i64;
        let mut live: Vec<NonceRow> = Vec::new();
        let mut used = false;
        let mut index: usize = 0;
        assert(all.take(0) =~= Seq::empty());
        assert(nonce_views(live@) =~= rows::kept(all.take(0), alive));
        while index < self.nonces.len()
            invariant
                now <= MAX_TIME,
                index <= self.nonces@.len(),
                all == nonce_views(self.nonces@),
                alive == (|row: NonceView| row.expires_at >= now as i64),
                nonce_views(live@) == rows::kept(all.take(index as int), alive),
                used == nonce_used(nonce_views(live@), request@.device, request@.nonce),
            decreases self.nonces@.len() - index,
        {
            let row = &self.nonces[index];
            assert(all[index as int] == row@);
            assert(all.take(index + 1).drop_last() =~= all.take(index as int));
            assert(all.take(index + 1).last() == row@);
            if row.expires_at >= now as i64 {
                let ghost before = nonce_views(live@);
                let same = same_text(row.client_id.as_str(), request.device.as_str()) && same_text(
                    row.nonce.as_str(),
                    request.nonce.as_str(),
                );
                live.push(
                    NonceRow {
                        client_id: row.client_id.clone(),
                        nonce: row.nonce.clone(),
                        expires_at: row.expires_at,
                    },
                );
                let ghost after = nonce_views(live@);
                assert(after =~= before.push(row@));
                proof {
                    if same {
                        assert(after[before.len() as int].client_id == request@.device);
                    } else if used {
                        let i = choose|i: int|
                            0 <= i < before.len() && (#[trigger] before[i]).client_id
                                == request@.device && before[i].nonce == request@.nonce;
                        assert(after[i] == before[i]);
                    } else {
                        assert forall|i: int| 0 <= i < after.len() implies !((#[trigger] after[i]).client_id
                            == request@.device && after[i].nonce == request@.nonce) by {
                            if i < before.len() {
                                assert(after[i] == before[i]);
                            }
                        }
                    }
                }
                used = used || same;
            }
            index += 1;
        }
        assert(all.take(index as int) =~= all);
        if used {
            self.nonces = live;
            return Err(replay());
        }
        let ghost before = live@;
        live.push(
            NonceRow {
                client_id: request.device.clone(),
                nonce: request.nonce.clone(),
                expires_at: (now + NONCE_LIFETIME) as i64,
            },
        );
        assert(nonce_views(live@) =~= nonce_views(before).push(
            NonceView {
                client_id: request@.device,
                nonce: request@.nonce,
                expires_at: (now + NONCE_LIFETIME) as i64,
            },
        ));
        self.nonces = live;
        Ok(())
    }
}

/// Whether a nonce is remembered until a time.
pub open spec fn remembered(
    nonces: Seq<NonceView>,
    device: Seq<char>,
    nonce: Seq<char>,
    until: int,
) -> bool {
    exists|i: int|
        0 <= i < nonces.len() && (#[trigger] nonces[i]).client_id == device && nonces[i].nonce
            == nonce && nonces[i].expires_at >= until
}

/// A request that was taken is remembered for as long as nonces are kept.
pub proof fn law_taken_nonce_is_remembered(
    nonces: Seq<NonceView>,
    device: Seq<char>,
    nonce: Seq<char>,
    now: u64,
)
    requires
        now <= MAX_TIME,
        nonce_step(nonces, device, nonce, true, now).1 is None,
    ensures
        remembered(
            nonce_step(nonces, device, nonce, true, now).0,
            device,
            nonce,
            now + NONCE_LIFETIME,
        ),
{
    let after = nonce_step(nonces, device, nonce, true, now).0;
    let last = after.len() - 1;
    assert(after[last].client_id == device && after[last].nonce == nonce);
}

/// Other requests do not make the relay forget a nonce before its time.
pub proof fn law_nonce_stays_remembered(
    nonces: Seq<NonceView>,
    device: Seq<char>,
    nonce: Seq<char>,
    until: int,
    other_device: Seq<char>,
    other_nonce: Seq<char>,
    valid: bool,
    now: u64,
)
    requires
        now <= MAX_TIME,
        now <= until,
        remembered(nonces, device, nonce, until),
    ensures
        remembered(
            nonce_step(nonces, other_device, other_nonce, valid, now).0,
            device,
            nonce,
            until,
        ),
{
    if valid {
        let keep = |row: NonceView| row.expires_at >= now as i64;
        rows::lemma_kept(nonces, keep);
        let live = live_nonces(nonces, now as i64);
        let i = choose|i: int|
            0 <= i < nonces.len() && (#[trigger] nonces[i]).client_id == device && nonces[i].nonce
                == nonce && nonces[i].expires_at >= until;
        assert(keep(nonces[i]));
        assert(live.contains(nonces[i]));
        let j = choose|j: int| 0 <= j < live.len() && live[j] == nonces[i];
        let after = nonce_step(nonces, other_device, other_nonce, valid, now).0;
        assert(after[j] == nonces[i]);
    }
}

/// No request is taken twice: one that was taken at some time is refused at every
/// later time, because its nonce is remembered or because its own time is too far
/// off.
pub proof fn law_replay_is_refused(
    s: StoreView,
    device: Seq<char>,
    method: Seq<char>,
    path: Seq<char>,
    body: Seq<u8>,
    nonce: Seq<char>,
    timestamp: u64,
    signature: Seq<char>,
    taken_at: u64,
    now: u64,
)
    requires
        taken_at <= now <= MAX_TIME,
        is_timely(timestamp, taken_at),
        now <= taken_at + NONCE_LIFETIME ==> remembered(
            s.nonces,
            device,
            nonce,
            taken_at + NONCE_LIFETIME,
        ),
    ensures
        signed_by(s, device, method, path, body, nonce, timestamp, signature, now) is None
            || nonce_step(s.nonces, device, nonce, true, now).1 == Some(relay_http::is_replay()),
{
    if now <= taken_at + NONCE_LIFETIME {
        let keep = |row: NonceView| row.expires_at >= now as i64;
        rows::lemma_kept(s.nonces, keep);
        let live = live_nonces(s.nonces, now as i64);
        let i = choose|i: int|
            0 <= i < s.nonces.len() && (#[trigger] s.nonces[i]).client_id == device
                && s.nonces[i].nonce == nonce && s.nonces[i].expires_at >= taken_at
                + NONCE_LIFETIME;
        assert(keep(s.nonces[i]));
        assert(live.contains(s.nonces[i]));
        let j = choose|j: int| 0 <= j < live.len() && live[j] == s.nonces[i];
        assert(live[j].client_id == device && live[j].nonce == nonce);
        assert(nonce_used(live, device, nonce));
    } else {
        assert(!is_timely(timestamp, now));
    }
}

/// What a signed request is answered: nothing where it is taken.
pub open spec fn request_refusal(
    s: StoreView,
    device: Seq<char>,
    method: Seq<char>,
    path: Seq<char>,
    body: Seq<u8>,
    nonce: Seq<char>,
    timestamp: u64,
    signature: Seq<char>,
    valid: bool,
    now: u64,
) -> Option<ErrorView> {
    if signed_by(s, device, method, path, body, nonce, timestamp, signature, now) is None {
        Some(relay_http::is_unauthorized())
    } else {
        nonce_step(s.nonces, device, nonce, valid, now).1
    }
}

/// A request whose signature has been checked.
pub struct CheckedView {
    pub device: Seq<char>,
    pub nonce: Seq<char>,
    pub valid: bool,
    pub at: u64,
}

/// The nonces after some requests.
pub open spec fn nonces_after(nonces: Seq<NonceView>, requests: Seq<CheckedView>) -> Seq<NonceView>
    decreases requests.len(),
{
    if requests.len() == 0 {
        nonces
    } else {
        let last = requests.last();
        nonce_step(
            nonces_after(nonces, requests.drop_last()),
            last.device,
            last.nonce,
            last.valid,
            last.at,
        ).0
    }
}

proof fn lemma_still_remembered(
    nonces: Seq<NonceView>,
    device: Seq<char>,
    nonce: Seq<char>,
    until: int,
    requests: Seq<CheckedView>,
)
    requires
        remembered(nonces, device, nonce, until),
        forall|i: int|
            0 <= i < requests.len() ==> (#[trigger] requests[i]).at <= MAX_TIME && requests[i].at
                <= until,
    ensures
        remembered(nonces_after(nonces, requests), device, nonce, until),
    decreases requests.len(),
{
    if requests.len() > 0 {
        let before = requests.drop_last();
        assert forall|i: int| 0 <= i < before.len() implies (#[trigger] before[i]).at <= MAX_TIME
            && before[i].at <= until by {
            assert(before[i] == requests[i]);
        }
        lemma_still_remembered(nonces, device, nonce, until, before);
        let last = requests.last();
        assert(requests[requests.len() - 1].at <= until);
        law_nonce_stays_remembered(
            nonces_after(nonces, before),
            device,
            nonce,
            until,
            last.device,
            last.nonce,
            last.valid,
            last.at,
        );
    }
}

/// No request is taken twice, whatever requests come in between: while its own time is
/// close enough it is refused as a replay, and later as unauthorized. The clock does
/// not run backwards, and the device stays registered.
pub proof fn law_no_request_is_taken_twice(
    s: StoreView,
    device: Seq<char>,
    method: Seq<char>,
    path: Seq<char>,
    body: Seq<u8>,
    nonce: Seq<char>,
    timestamp: u64,
    signature: Seq<char>,
    taken_at: u64,
    requests: Seq<CheckedView>,
    later: StoreView,
    now: u64,
)
    requires
        request_refusal(s, device, method, path, body, nonce, timestamp, signature, true, taken_at)
            is None,
        taken_at <= now <= MAX_TIME,
        forall|i: int| 0 <= i < requests.len() ==> (#[trigger] requests[i]).at <= now,
        later.nonces == nonces_after(
            nonce_step(s.nonces, device, nonce, true, taken_at).0,
            requests,
        ),
        rows::first_at(later.devices, has_id(device), 0) < later.devices.len(),
    ensures
        is_timely(timestamp, taken_at),
        0 < encode_utf8(nonce).len() <= MAX_NONCE_BYTES,
        request_refusal(later, device, method, path, body, nonce, timestamp, signature, true, now)
            == Some(
            if is_timely(timestamp, now) {
                relay_http::is_replay()
            } else {
                relay_http::is_unauthorized()
            },
        ),
{
    assert(nonce.len() > 0);
    encode_utf8_decode_utf8(nonce);
    if encode_utf8(nonce).len() == 0 {
        encode_utf8_decode_utf8(Seq::<char>::empty());
        assert(encode_utf8(nonce) =~= encode_utf8(Seq::<char>::empty()));
    }
    let until = taken_at + NONCE_LIFETIME;
    law_taken_nonce_is_remembered(s.nonces, device, nonce, taken_at);
    if now <= until {
        lemma_still_remembered(
            nonce_step(s.nonces, device, nonce, true, taken_at).0,
            device,
            nonce,
            until,
            requests,
        );
    }
    law_replay_is_refused(
        later,
        device,
        method,
        path,
        body,
        nonce,
        timestamp,
        signature,
        taken_at,
        now,
    );
}

// ---------------------------------------------------------------------------
// Who is taken for whom
// ---------------------------------------------------------------------------

/// A token is taken for the client of the first device that has its digest and whose
/// client is active. A token that no such device has is taken for nobody.
pub proof fn law_token_is_taken_for_its_device(
    s: StoreView,
    authorization: HeaderView,
    token: Seq<char>,
    index: int,
)
    requires
        relay_http::bearer_token(authorization) == Some(token),
    ensures
        token_device(s, authorization) matches Some(client) ==> {
            &&& 0 < token.len()
            &&& encode_utf8(token).len() <= MAX_SIGNATURE_B64_BYTES
            &&& s.allowlist.contains_key(client)
            &&& s.allowlist[client].active
            &&& exists|i: int|
                0 <= i < s.devices.len() && (#[trigger] s.devices[i]).client_id == client
                    && s.devices[i].token_hash == text::hex(
                    primitives::sha256_digest(encode_utf8(token)),
                )
        },
        0 <= index < s.devices.len() && s.devices[index].token_hash == text::hex(
            primitives::sha256_digest(encode_utf8(token)),
        ) && s.allowlist.contains_key(s.devices[index].client_id)
            && s.allowlist[s.devices[index].client_id].active && 0 < token.len() && encode_utf8(
            token,
        ).len() <= MAX_SIGNATURE_B64_BYTES && (forall|i: int|
            0 <= i < index ==> (#[trigger] s.devices[i]).token_hash != text::hex(
                primitives::sha256_digest(encode_utf8(token)),
            )) ==> token_device(s, authorization) == Some(s.devices[index].client_id),
{
    let digest = text::hex(primitives::sha256_digest(encode_utf8(token)));
    let wanted = has_token(s.allowlist, digest);
    rows::lemma_first_at(s.devices, wanted, 0);
    let found = rows::first_at(s.devices, wanted, 0);
    if token_device(s, authorization) is Some {
        assert(wanted(s.devices[found]));
    }
    if 0 <= index < s.devices.len() && wanted(s.devices[index]) && (forall|i: int|
        0 <= i < index ==> (#[trigger] s.devices[i]).token_hash != digest) {
        rows::lemma_first_is(s.devices, wanted, index);
    }
}

/// A request without a token, or with one in another form, is taken for nobody.
pub proof fn law_no_token_no_device(s: StoreView, authorization: HeaderView)
    requires
        relay_http::bearer_token(authorization) is None,
    ensures
        token_device(s, authorization) is None,
{
}

/// A request is to be checked with the identity of the first device that has the ID,
/// over a payload that covers its method, path, body, nonce and time. It is refused
/// exactly where its time is more than five minutes off, its nonce is empty or too long,
/// its signature is too long or no Base64, or no device has the ID.
pub proof fn law_request_is_checked_with_the_devices_identity(
    s: StoreView,
    device: Seq<char>,
    method: Seq<char>,
    path: Seq<char>,
    body: Seq<u8>,
    nonce: Seq<char>,
    timestamp: u64,
    signature: Seq<char>,
    now: u64,
    index: int,
)
    ensures
        ({
            let request = signed_by(
                s,
                device,
                method,
                path,
                body,
                nonce,
                timestamp,
                signature,
                now,
            );
            let fits = timestamp <= now + 300 && now <= timestamp + 300 && 0 < nonce.len()
                && encode_utf8(nonce).len() <= 128 && encode_utf8(signature).len()
                <= MAX_SIGNATURE_B64_BYTES && primitives::base64_bytes(signature) is Some;
            &&& request is Some ==> fits
            &&& 0 <= index < s.devices.len() && s.devices[index].client_id == device && (forall|
                i: int,
            |
                0 <= i < index ==> (#[trigger] s.devices[i]).client_id != device) ==> {
                &&& request is Some <==> fits
                &&& request matches Some(signed) ==> {
                    &&& signed.identity_key == s.devices[index].identity_key
                    &&& signed.device == device
                    &&& signed.nonce == nonce
                    &&& primitives::base64_bytes(signature) == Some(signed.signature)
                    &&& signed.payload == relay_signing::request_payload(
                        method,
                        path,
                        body,
                        nonce,
                        timestamp,
                    )
                }
            }
            &&& (forall|i: int|
                0 <= i < s.devices.len() ==> (#[trigger] s.devices[i]).client_id != device)
                ==> request is None
        }),
{
    let wanted = has_id(device);
    if 0 <= index < s.devices.len() && s.devices[index].client_id == device && (forall|i: int|
        0 <= i < index ==> (#[trigger] s.devices[i]).client_id != device) {
        rows::lemma_first_is(s.devices, wanted, index);
    }
    if forall|i: int| 0 <= i < s.devices.len() ==> (#[trigger] s.devices[i]).client_id != device {
        rows::lemma_first_is(s.devices, wanted, s.devices.len() as int);
    }
}

/// A request that bears a token is checked as one of the token's device and of no other,
/// and of the device that is expected where one is.
pub proof fn law_request_is_its_tokens(
    s: StoreView,
    headers: RequestHeaders,
    method: Seq<char>,
    path: Seq<char>,
    body: Seq<u8>,
    expected_device: Option<Seq<char>>,
    now: u64,
)
    requires
        request_to_check(s, headers, method, path, body, expected_device, now) is Some,
    ensures
        ({
            let signed = request_to_check(s, headers, method, path, body, expected_device, now)->0;
            &&& token_device(s, headers.authorization@) == Some(signed.device)
            &&& expected_device matches Some(expected) ==> expected == signed.device
            &&& relay_http::header_text(headers.nonce@) == Some(signed.nonce)
            &&& relay_http::header_text(headers.signature@) is Some
            &&& primitives::base64_bytes(relay_http::header_text(headers.signature@)->0) == Some(
                signed.signature,
            )
            &&& relay_http::header_text(headers.timestamp@) is Some
            &&& text::parsed_u64(relay_http::header_text(headers.timestamp@)->0) matches Some(time)
            &&& signed.payload == relay_signing::request_payload(
                method,
                path,
                body,
                signed.nonce,
                time,
            )
            &&& now <= time + 300
            &&& time <= now + 300
        }),
{
}

/// A checked request is taken exactly where its signature is valid and its device has
/// not used its nonce in the last ten minutes. It is remembered then. Whatever comes of
/// it, no nonce is forgotten before its time, and none is made up.
pub proof fn law_nonce_is_taken_once(
    nonces: Seq<NonceView>,
    device: Seq<char>,
    nonce: Seq<char>,
    valid: bool,
    now: u64,
)
    requires
        now <= MAX_TIME,
    ensures
        ({
            let (after, refusal) = nonce_step(nonces, device, nonce, valid, now);
            let used = exists|i: int|
                0 <= i < nonces.len() && (#[trigger] nonces[i]).client_id == device
                    && nonces[i].nonce == nonce && nonces[i].expires_at >= now;
            &&& refusal is None <==> valid && !used
            &&& !valid ==> after == nonces && refusal == Some(relay_http::is_unauthorized())
            &&& valid && used ==> refusal == Some(relay_http::is_replay())
            &&& refusal is None ==> after.len() > 0 && after.last().client_id == device
                && after.last().nonce == nonce && after.last().expires_at == now + 600
            &&& forall|i: int|
                0 <= i < nonces.len() && (#[trigger] nonces[i]).expires_at >= now
                    ==> after.contains(nonces[i])
            &&& forall|k: int|
                0 <= k < after.len() ==> nonces.contains(#[trigger] after[k]) || (refusal is None
                    && k == after.len() - 1)
        }),
{
    let alive = |row: NonceView| row.expires_at >= now as i64;
    let live = live_nonces(nonces, now as i64);
    rows::lemma_kept(nonces, alive);
    let (after, refusal) = nonce_step(nonces, device, nonce, valid, now);
    let used = exists|i: int|
        0 <= i < nonces.len() && (#[trigger] nonces[i]).client_id == device && nonces[i].nonce
            == nonce && nonces[i].expires_at >= now;
    assert(used <==> nonce_used(live, device, nonce)) by {
        if used {
            let i = choose|i: int|
                0 <= i < nonces.len() && (#[trigger] nonces[i]).client_id == device
                    && nonces[i].nonce == nonce && nonces[i].expires_at >= now;
            assert(alive(nonces[i]));
            assert(live.contains(nonces[i]));
            let k = choose|k: int| 0 <= k < live.len() && live[k] == nonces[i];
            assert(live[k].client_id == device);
        }
        if nonce_used(live, device, nonce) {
            let k = choose|k: int|
                0 <= k < live.len() && (#[trigger] live[k]).client_id == device && live[k].nonce
                    == nonce;
            assert(alive(live[k]) && nonces.contains(live[k]));
            let i = choose|i: int| 0 <= i < nonces.len() && nonces[i] == live[k];
            assert(nonces[i].client_id == device);
        }
    }
    assert forall|i: int| 0 <= i < nonces.len() && (#[trigger] nonces[i]).expires_at
        >= now implies after.contains(nonces[i]) by {
        if valid {
            assert(alive(nonces[i]));
            assert(live.contains(nonces[i]));
            let k = choose|k: int| 0 <= k < live.len() && live[k] == nonces[i];
            assert(after[k] == nonces[i]);
        }
    }
    assert forall|k: int| 0 <= k < after.len() implies nonces.contains(#[trigger] after[k]) || (
    refusal is None && k == after.len() - 1) by {
        if valid && k < live.len() {
            assert(after[k] == live[k]);
            assert(nonces.contains(live[k]));
        }
    }
}

} // verus!
