//! Client side of the relay: what is asked of it, and how its answers are taken.
//!
//! Requests are sent and signed outside. This module says what is sent, what is
//! signed, when a request is tried again, and what an answer means.
use reqwest::Url;
use vstd::prelude::*;
use vstd::utf8::*;

use crate::bundle;
use crate::bundle::{BundleView, SignalPreKeyBundle};
use crate::bytes::same_bytes;
use crate::primitives;
use crate::primitives::{b64, b64decode, hash, random_16};
use crate::protocol;
use crate::protocol::{decode_messages, encode_submit, Message, MessageView, ProtocolError, Submit, MAX_BODY};
use crate::relay_signing;
use crate::relay_signing::{
    write_enrollment_payload, write_register_payload, write_request_payload,
};
use crate::rows;
use crate::signal;
use crate::signal::SignalError;
use crate::table::TextTable;
use crate::text;
use crate::text::{
    decimal_text, ends_with_char, parse_i64, same_text, signed_decimal_text, split_text,
    trim_end_char, utf8_lossy,
};
use crate::transport::{ContactRequest, DeliveryStatus, TransportMessage, TransportMessageView};

verus! {

/// The longest answer that is read as JSON.
pub const MAX_RESPONSE_BYTES: usize = MAX_BODY;

/// How often a request is sent.
pub const MAX_REQUEST_ATTEMPTS: usize = 4;

/// For how many milliseconds a fetched bundle is used again.
pub const PEER_BUNDLE_CACHE_TTL: u64 = 60_000;

/// What the offsets into a URL can count to.
pub const MAX_URL_OFFSET: usize = 0xffff_ffff;

// ---------------------------------------------------------------------------
// Errors
// ---------------------------------------------------------------------------

/// Why the relay could not be used.
#[derive(Clone, Debug, PartialEq, Eq)]
pub enum ClientError {
    /// The address of the relay is no URL.
    InvalidUrl,
    /// The address of the relay is not safe.
    InsecureUrl,
    /// No device is registered with the relay.
    NotRegistered,
    /// The answer is too long.
    ResponseTooLarge,
    /// The relay refused the request.
    Refused { status: u16, body: String },
    /// The answer is no frame of messages.
    InvalidFrame(ProtocolError),
    /// The relay did not say what became of the message.
    NoSentMessage,
    /// A field of the answer is not Base64.
    InvalidBase64,
    /// A bundle cannot be written or read.
    InvalidBundle(SignalError),
    /// The bundle belongs to another identity than the one that was verified.
    PeerMismatch,
    /// The ID of a message is no number.
    InvalidTransportId,
    /// What became of a message is not known.
    UnknownDeliveryStatus(String),
}

// ---------------------------------------------------------------------------
// Configuration
// ---------------------------------------------------------------------------

/// How a relay is reached.
#[non_exhaustive]
#[derive(Clone, Debug)]
pub struct RelayClientConfig {
    pub base_url: String,
    pub client_id: String,
    pub enrollment_secret: String,
    pub ca_certificate_pem: Option<Vec<u8>>,
    pub allow_insecure_http: bool,
}

impl RelayClientConfig {
    /// Creates a relay configuration with secure defaults.
    pub fn new(base_url: &str, client_id: &str, enrollment_secret: &str) -> (config:
        RelayClientConfig)
        ensures
            config.base_url@ == base_url@,
            config.client_id@ == client_id@,
            config.enrollment_secret@ == enrollment_secret@,
            config.ca_certificate_pem is None,
            !config.allow_insecure_http,
    {
        RelayClientConfig {
            base_url: base_url.to_owned(),
            client_id: client_id.to_owned(),
            enrollment_secret: enrollment_secret.to_owned(),
            ca_certificate_pem: None,
            allow_insecure_http: false,
        }
    }

    /// Adds a private CA certificate used to validate the relay.
    pub fn with_ca_certificate(self, certificate_pem: Vec<u8>) -> (config: RelayClientConfig)
        ensures
            config == (RelayClientConfig { ca_certificate_pem: Some(certificate_pem), ..self }),
    {
        RelayClientConfig { ca_certificate_pem: Some(certificate_pem), ..self }
    }

    /// Explicitly permits HTTP for a trusted private-network hop.
    pub fn with_insecure_http(self, allowed: bool) -> (config: RelayClientConfig)
        ensures
            config == (RelayClientConfig { allow_insecure_http: allowed, ..self }),
    {
        RelayClientConfig { allow_insecure_http: allowed, ..self }
    }
}

/// What `url` makes of a text: scheme, path and text of the URL, if it is one.
pub uninterp spec fn parsed_url(value: Seq<char>) -> Option<(Seq<char>, Seq<char>, Seq<char>)>;

/// The text of a URL with another path.
pub uninterp spec fn url_with_path(value: Seq<char>, path: Seq<char>) -> Seq<char>;

/// Wraps `reqwest::Url::parse`, with the `scheme`, the `path` and the text of the URL
/// that it gives: functions of the text alone.
#[verifier::external_body]
fn parse_url(value: &str) -> (parts: Option<(String, String, String)>)
    ensures
        match parsed_url(value@) {
            Some((scheme, path, shown)) => parts matches Some(found) && found.0@ == scheme
                && found.1@ == path && found.2@ == shown,
            None => parts is None,
        },
{
    let url = Url::parse(value).ok()?;
    Some((url.scheme().to_owned(), url.path().to_owned(), url.to_string()))
}

/// Wraps `reqwest::Url::set_path` on the HTTP or HTTPS URL that a text is, to add a
/// slash to its path: the text that results, which is a function of the two texts. The
/// path of a URL is written as it stands when it is set again, so the URL grows by one
/// byte, and its offsets have 32 bits.
#[verifier::external_body]
fn set_url_path(value: &str, path: &str) -> (result: String)
    requires
        parsed_url(value@) matches Some((scheme, old_path, shown)) && scheme_allowed(scheme, true)
            && path@ == old_path + "/"@ && encode_utf8(shown).len() < MAX_URL_OFFSET,
    ensures
        result@ == url_with_path(value@, path@),
{
    let mut url = match Url::parse(value) {
        Ok(url) => url,
        Err(_) => return String::new(),
    };
    url.set_path(path);
    url.to_string()
}

/// Whether a relay may be reached by a scheme: HTTPS unless HTTP is asked for.
pub open spec fn scheme_allowed(scheme: Seq<char>, allow_insecure_http: bool) -> bool {
    scheme == "https"@ || (allow_insecure_http && scheme == "http"@)
}

/// The address that every path is appended to, with what became of the configured
/// one.
pub open spec fn relay_base(
    value: Seq<char>,
    parts: Option<(Seq<char>, Seq<char>, Seq<char>)>,
    allow_insecure_http: bool,
) -> Result<Seq<char>, ClientError> {
    match parts {
        None => Err(ClientError::InvalidUrl),
        Some((scheme, path, shown)) => if !scheme_allowed(scheme, allow_insecure_http) {
            Err(ClientError::InsecureUrl)
        } else if path.len() > 0 && path.last() == '/' {
            Ok(text::without_end(shown, '/'))
        } else if encode_utf8(shown).len() >= MAX_URL_OFFSET {
            Err(ClientError::InvalidUrl)
        } else {
            Ok(text::without_end(url_with_path(value, path + "/"@), '/'))
        },
    }
}

/// What is done with the parts of the configured address.
#[derive(Debug, PartialEq, Eq)]
pub enum BaseUrl {
    /// It is the address, written so.
    Use(String),
    /// Its path has to be replaced.
    SetPath(String),
}

/// Decides how a relay is reached, from the scheme, the path and the text of its
/// URL.
pub fn check_base_url(
    parts: Option<(String, String, String)>,
    allow_insecure_http: bool,
) -> (result: Result<BaseUrl, ClientError>)
    ensures
        match parts {
            None => result matches Err(error) && error == ClientError::InvalidUrl,
            Some((scheme, path, shown)) => if !scheme_allowed(scheme@, allow_insecure_http) {
                result matches Err(error) && error == ClientError::InsecureUrl
            } else if path@.len() > 0 && path@.last() == '/' {
                result matches Ok(BaseUrl::Use(base)) && base@ == text::without_end(shown@, '/')
            } else if encode_utf8(shown@).len() >= MAX_URL_OFFSET {
                result matches Err(error) && error == ClientError::InvalidUrl
            } else {
                result matches Ok(BaseUrl::SetPath(longer)) && longer@ == path@ + "/"@
            },
        },
{
    match parts {
        None => Err(ClientError::InvalidUrl),
        Some((scheme, path, shown)) => {
            let secure = same_text(scheme.as_str(), "https");
            if !secure && !(allow_insecure_http && same_text(scheme.as_str(), "http")) {
                return Err(ClientError::InsecureUrl);
            }
            if ends_with_char(path.as_str(), '/') {
                Ok(BaseUrl::Use(trim_end_char(shown.as_str(), '/')))
            } else if shown.as_str().as_bytes().len() >= MAX_URL_OFFSET {
                Err(ClientError::InvalidUrl)
            } else {
                let mut longer = path;
                longer.append("/");
                Ok(BaseUrl::SetPath(longer))
            }
        },
    }
}

/// The address that every path is appended to.
pub fn base_url_of(value: &str, allow_insecure_http: bool) -> (result: Result<String, ClientError>)
    ensures
        match relay_base(value@, parsed_url(value@), allow_insecure_http) {
            Ok(base) => result matches Ok(found) && found@ == base,
            Err(error) => result matches Err(found) && found == error,
        },
{
    match check_base_url(parse_url(value), allow_insecure_http) {
        Err(error) => Err(error),
        Ok(BaseUrl::Use(base)) => Ok(base),
        Ok(BaseUrl::SetPath(path)) => {
            Ok(trim_end_char(set_url_path(value, path.as_str()).as_str(), '/'))
        },
    }
}

/// Where an operator's request is sent, from the scheme of the relay's URL.
pub open spec fn allowlist_url(
    value: Seq<char>,
    scheme: Option<Seq<char>>,
    allow_http: bool,
) -> Result<Seq<char>, ClientError> {
    match scheme {
        None => Err(ClientError::InvalidUrl),
        Some(scheme) => if scheme_allowed(scheme, allow_http) {
            Ok(text::without_end(value, '/') + "/v1/admin/allowlist"@)
        } else {
            Err(ClientError::InsecureUrl)
        },
    }
}

/// Decides where an operator's request is sent, from the scheme of the relay's URL.
pub fn check_allowlist_url(value: &str, scheme: Option<String>, allow_http: bool) -> (result: Result<
    String,
    ClientError,
>)
    ensures
        match allowlist_url(
            value@,
            match scheme {
                Some(scheme) => Some(scheme@),
                None => None,
            },
            allow_http,
        ) {
            Ok(url) => result matches Ok(found) && found@ == url,
            Err(error) => result matches Err(found) && found == error,
        },
{
    match scheme {
        None => Err(ClientError::InvalidUrl),
        Some(scheme) => {
            let secure = same_text(scheme.as_str(), "https");
            if !secure && !(allow_http && same_text(scheme.as_str(), "http")) {
                return Err(ClientError::InsecureUrl);
            }
            let mut url = trim_end_char(value, '/');
            url.append("/v1/admin/allowlist");
            Ok(url)
        },
    }
}

/// Where an operator's request to let a client register is sent.
pub fn allowlist_add_remote(base_url: &str, allow_http: bool) -> (result: Result<
    String,
    ClientError,
>)
    ensures
        match allowlist_url(
            base_url@,
            match parsed_url(base_url@) {
                Some(parts) => Some(parts.0),
                None => None,
            },
            allow_http,
        ) {
            Ok(url) => result matches Ok(found) && found@ == url,
            Err(error) => result matches Err(found) && found == error,
        },
{
    let scheme = match parse_url(base_url) {
        Some(parts) => Some(parts.0),
        None => None,
    };
    check_allowlist_url(base_url, scheme, allow_http)
}

/// The relay is reached by HTTPS, unless HTTP was asked for: a URL can be used exactly
/// where its scheme is HTTPS, or HTTP and that is allowed. The address that paths are
/// appended to does not end in a slash.
pub proof fn law_relay_requires_https(
    value: Seq<char>,
    scheme: Seq<char>,
    path: Seq<char>,
    shown: Seq<char>,
    allow_insecure_http: bool,
)
    requires
        encode_utf8(shown).len() < MAX_URL_OFFSET,
    ensures
        ({
            let base = relay_base(value, Some((scheme, path, shown)), allow_insecure_http);
            &&& base is Ok <==> (scheme == "https"@ || (scheme == "http"@ && allow_insecure_http))
            &&& base matches Ok(url) ==> url.len() == 0 || url.last() != '/'
        }),
{
    text::lemma_without_end(shown, '/');
    text::lemma_without_end(url_with_path(value, path + "/"@), '/');
}

// ---------------------------------------------------------------------------
// The client
// ---------------------------------------------------------------------------

/// What the relay answers to a registration.
#[derive(Clone, Debug, PartialEq, Eq)]
pub struct RelayRegistration {
    pub access_token: String,
    pub device_id: String,
    pub api_version: String,
}

/// What the relay answers to a request for enrollment.
#[derive(Clone, Debug, PartialEq, Eq)]
pub struct EnrollmentResponse {
    pub accepted: bool,
    pub client_id: String,
    pub expires_at: u64,
}

/// A bundle that the relay holds.
#[derive(Clone, Debug, PartialEq, Eq)]
pub struct RelayBundle {
    pub device_id: String,
    pub bundle: String,
}

/// What the relay says of a message.
#[derive(Clone, Debug, PartialEq, Eq)]
pub struct RelayMessageStatus {
    pub message_id: String,
    pub status: String,
}

/// A message that the relay holds.
#[derive(Clone, Debug, PartialEq, Eq)]
pub struct RelayMessage {
    pub server_id: i64,
    pub sender: String,
    pub sender_address: Option<String>,
    pub message_id: String,
    pub ciphertext: Vec<u8>,
    pub accepted_at: u64,
    pub expires_at: Option<u64>,
}

impl View for RelayMessage {
    type V = MessageView;

    open spec fn view(&self) -> MessageView {
        MessageView {
            server_id: self.server_id,
            sender: self.sender@,
            sender_address: protocol::optional_text(self.sender_address),
            message_id: self.message_id@,
            accepted_at: self.accepted_at,
            expires_at: self.expires_at,
            ciphertext: self.ciphertext@,
        }
    }
}

/// What the relay says of a contact.
#[derive(Clone, Debug, PartialEq, Eq)]
pub struct ContactResponse {
    pub request_id: String,
    pub sender_id: String,
    pub sender_name: String,
    pub sender_fingerprint: String,
    pub bundle: String,
    pub status: String,
}

/// What is sent to register a device, but for its identity and its signature.
#[derive(Debug)]
pub struct RegistrationDraft {
    pub device_address: String,
    pub bundle: String,
    /// What the signature is made over.
    pub payload: Vec<u8>,
}

/// What is sent to ask for enrollment, but for the identity and its signature.
#[derive(Debug)]
pub struct EnrollmentDraft {
    pub device_address: String,
    pub bundle: String,
    pub secret_hash: String,
    /// What the signature is made over.
    pub payload: Vec<u8>,
}

/// What is sent with a request, but for its signature.
#[derive(Debug)]
pub struct RequestDraft {
    pub authorization: String,
    pub nonce: String,
    pub timestamp: String,
    /// What the signature is made over.
    pub payload: Vec<u8>,
}

/// A relay that a device uses.
#[derive(Debug)]
pub struct RelayClient {
    pub config: RelayClientConfig,
    pub access_token: Option<String>,
}

/// What is signed of a path: the part in front of the query.
pub open spec fn signed_path(path: Seq<char>) -> Seq<char> {
    text::split(path, '?')[0]
}

impl RelayClient {
    pub fn new(config: RelayClientConfig) -> (result: Result<RelayClient, ClientError>)
        ensures
            match relay_base(
                config.base_url@,
                parsed_url(config.base_url@),
                config.allow_insecure_http,
            ) {
                Ok(base) => result matches Ok(client) && client.access_token is None
                    && client.config.base_url@ == base && client.config == (RelayClientConfig {
                    base_url: client.config.base_url,
                    ..config
                }),
                Err(error) => result matches Err(found) && found == error,
            },
    {
        match base_url_of(config.base_url.as_str(), config.allow_insecure_http) {
            Err(error) => Err(error),
            Ok(base_url) => Ok(
                RelayClient {
                    config: RelayClientConfig { base_url, ..config },
                    access_token: None,
                },
            ),
        }
    }

    pub fn is_registered(&self) -> (registered: bool)
        ensures
            registered == (self.access_token is Some),
    {
        self.access_token.is_some()
    }

    pub fn restore_access_token(&mut self, token: String)
        ensures
            *final(self) == (RelayClient { access_token: Some(token), ..*old(self) }),
    {
        self.access_token = Some(token);
    }

    pub fn access_token(&self) -> (token: Option<&str>)
        ensures
            match self.access_token {
                Some(value) => token matches Some(shown) && shown@ == value@,
                None => token is None,
            },
    {
        match &self.access_token {
            Some(value) => Some(value.as_str()),
            None => None,
        }
    }

    pub fn base_url(&self) -> (url: &str)
        ensures
            url@ == self.config.base_url@,
    {
        self.config.base_url.as_str()
    }

    pub fn client_id(&self) -> (id: &str)
        ensures
            id@ == self.config.client_id@,
    {
        self.config.client_id.as_str()
    }

    /// Goes by another client name.
    pub fn set_client_id(&mut self, client_id: String)
        ensures
            *final(self) == (RelayClient {
                config: RelayClientConfig { client_id, ..old(self).config },
                ..*old(self)
            }),
    {
        self.config.client_id = client_id;
    }

    /// The address of a path.
    pub fn url(&self, path: &str) -> (url: String)
        ensures
            url@ == self.config.base_url@ + path@,
    {
        let mut url = self.config.base_url.clone();
        url.append(path);
        url
    }

    /// Prepares the registration of a device that has been challenged.
    pub fn register(&self, bundle: &SignalPreKeyBundle, challenge: &str) -> (result: Result<
        RegistrationDraft,
        ClientError,
    >)
        ensures
            match primitives::base64_bytes(challenge@) {
                None => result matches Err(error) && error == ClientError::InvalidBase64,
                Some(answer) => match bundle::bundle_encoding(bundle@) {
                    Err(fault) => result matches Err(error) && error == ClientError::InvalidBundle(
                        fault,
                    ),
                    Ok(frame) => result matches Ok(draft) && draft.device_address@
                        == signal::address_text(bundle@.name, bundle@.device_id) && draft.bundle@
                        == primitives::base64_url(frame) && draft.payload@
                        == relay_signing::register_payload(
                        self.config.client_id@,
                        draft.device_address@,
                        frame,
                        answer,
                    ),
                },
            },
    {
        let answer = match b64decode(challenge) {
            Some(answer) => answer,
            None => return Err(ClientError::InvalidBase64),
        };
        let frame = match bundle.encode() {
            Ok(frame) => frame,
            Err(fault) => return Err(ClientError::InvalidBundle(fault)),
        };
        let device_address = bundle.address();
        let payload = write_register_payload(
            self.config.client_id.as_str(),
            device_address.as_str(),
            frame.as_slice(),
            answer.as_slice(),
        );
        Ok(RegistrationDraft { device_address, bundle: b64(frame.as_slice()), payload })
    }

    /// Takes in the answer to a registration.
    pub fn complete_registration(&mut self, registration: &RelayRegistration)
        ensures
            final(self).config == old(self).config,
            final(self).access_token matches Some(token) && token@ == registration.access_token@,
    {
        self.access_token = Some(registration.access_token.clone());
    }

    /// Prepares a request for enrollment.
    pub fn submit_enrollment_request(&self, bundle: &SignalPreKeyBundle, fingerprint: &str) -> (result:
        Result<EnrollmentDraft, ClientError>)
        ensures
            match bundle::bundle_encoding(bundle@) {
                Err(fault) => result matches Err(error) && error == ClientError::InvalidBundle(
                    fault,
                ),
                Ok(frame) => result matches Ok(draft) && draft.device_address@
                    == signal::address_text(bundle@.name, bundle@.device_id) && draft.bundle@
                    == primitives::base64_url(frame) && draft.secret_hash@ == text::hex(
                    primitives::sha256_digest(encode_utf8(self.config.enrollment_secret@)),
                ) && draft.payload@ == relay_signing::enrollment_payload(
                    draft.device_address@,
                    fingerprint@,
                    draft.secret_hash@,
                    frame,
                ),
            },
    {
        let frame = match bundle.encode() {
            Ok(frame) => frame,
            Err(fault) => return Err(ClientError::InvalidBundle(fault)),
        };
        let device_address = bundle.address();
        let secret_hash = hash(self.config.enrollment_secret.as_str());
        let payload = write_enrollment_payload(
            device_address.as_str(),
            fingerprint,
            secret_hash.as_str(),
            frame.as_slice(),
        );
        Ok(EnrollmentDraft { device_address, bundle: b64(frame.as_slice()), secret_hash, payload })
    }

    /// Takes in the answer to a request for enrollment: the relay assigns the ID.
    pub fn complete_enrollment(&mut self, response: &EnrollmentResponse)
        ensures
            final(self).access_token == old(self).access_token,
            final(self).config.client_id@ == response.client_id@,
            final(self).config == (RelayClientConfig {
                client_id: final(self).config.client_id,
                ..old(self).config
            }),
    {
        self.config.client_id = response.client_id.clone();
    }

    /// Prepares a request of a registered device.
    pub fn sign_request(&self, method: &str, path: &str, body: &[u8], nonce: String, timestamp: u64) -> (result:
        Result<RequestDraft, ClientError>)
        ensures
            match self.access_token {
                None => result matches Err(error) && error == ClientError::NotRegistered,
                Some(token) => result matches Ok(draft) && draft.authorization@ == "Bearer "@
                    + token@ && draft.nonce@ == nonce@ && draft.timestamp@ == text::decimal(
                    timestamp as nat,
                ) && draft.payload@ == relay_signing::request_payload(
                    method@,
                    signed_path(path@),
                    body@,
                    nonce@,
                    timestamp,
                ),
            },
    {
        match &self.access_token {
            None => Err(ClientError::NotRegistered),
            Some(token) => {
                let mut authorization = "Bearer ".to_owned();
                authorization.append(token.as_str());
                let parts = split_text(path, '?');
                assert(text::views(parts@)[0] == parts@[0]@);
                let payload = write_request_payload(
                    method,
                    parts[0].as_str(),
                    body,
                    nonce.as_str(),
                    timestamp,
                );
                Ok(
                    RequestDraft {
                        authorization,
                        nonce,
                        timestamp: decimal_text(timestamp),
                        payload,
                    },
                )
            },
        }
    }

    /// Where the bundle of this device is.
    pub fn publish_bundle(&self) -> (path: String)
        ensures
            path@ == bundle_path(self.config.client_id@),
    {
        bundle_path_text(self.config.client_id.as_str())
    }
}

/// Where the bundle of a device is.
pub open spec fn bundle_path(device: Seq<char>) -> Seq<char> {
    "/v1/devices/"@ + device + "/bundle"@
}

fn bundle_path_text(device: &str) -> (path: String)
    ensures
        path@ == bundle_path(device@),
{
    let mut path = "/v1/devices/".to_owned();
    path.append(device);
    path.append("/bundle");
    path
}

/// Where the bundle of a device is.
pub fn fetch_bundle(device_id: &str) -> (path: String)
    ensures
        path@ == bundle_path(device_id@),
{
    bundle_path_text(device_id)
}

/// Where the bundle of the device with an address is.
pub fn fetch_bundle_by_address(address: &str) -> (path: String)
    ensures
        path@ == bundle_path("by-address/"@ + address@),
{
    let mut device = "by-address/".to_owned();
    device.append(address);
    bundle_path_text(device.as_str())
}

/// Where the messages behind a cursor are.
pub fn receive_messages(cursor: i64) -> (path: String)
    ensures
        path@ == "/v1/messages?cursor="@ + text::signed_decimal(cursor as int),
{
    let mut path = "/v1/messages?cursor=".to_owned();
    path.append(signed_decimal_text(cursor).as_str());
    path
}

/// Where a message is acknowledged.
pub open spec fn acknowledge_path(server_id: i64) -> Seq<char> {
    "/v1/messages/"@ + text::signed_decimal(server_id as int) + "/ack"@
}

/// Where a message is acknowledged.
pub fn acknowledge(server_id: i64) -> (path: String)
    ensures
        path@ == acknowledge_path(server_id),
{
    let mut path = "/v1/messages/".to_owned();
    path.append(signed_decimal_text(server_id).as_str());
    path.append("/ack");
    path
}

/// Where the status of a message is.
pub fn message_status(message_id: &str) -> (path: String)
    ensures
        path@ == "/v1/messages/status?message_id="@ + message_id@,
{
    let mut path = "/v1/messages/status?message_id=".to_owned();
    path.append(message_id);
    path
}

/// Where contacts are.
pub fn contact_path(outgoing: bool) -> (path: &'static str)
    ensures
        path@ == (if outgoing {
            "/v1/contacts/requests?direction=outgoing"@
        } else {
            "/v1/contacts/requests"@
        }),
{
    if outgoing {
        "/v1/contacts/requests?direction=outgoing"
    } else {
        "/v1/contacts/requests"
    }
}

/// Where a contact is answered.
pub open spec fn answer_path(request_id: Seq<char>, answer: Seq<char>) -> Seq<char> {
    "/v1/contacts/requests/"@ + request_id + answer
}

/// Where a contact is accepted.
pub fn accept_contact(request_id: &str) -> (path: String)
    ensures
        path@ == answer_path(request_id@, "/accept"@),
{
    let mut path = "/v1/contacts/requests/".to_owned();
    path.append(request_id);
    path.append("/accept");
    path
}

/// Where a contact is rejected.
pub fn reject_contact(request_id: &str) -> (path: String)
    ensures
        path@ == answer_path(request_id@, "/reject"@),
{
    let mut path = "/v1/contacts/requests/".to_owned();
    path.append(request_id);
    path.append("/reject");
    path
}

/// A nonce for a request: sixteen random bytes in Base64.
pub fn random_nonce() -> (nonce: String)
    ensures
        exists|bytes: Seq<u8>| bytes.len() == 16 && nonce@ == primitives::base64_url(bytes),
{
    let bytes: [u8; 16] = random_16();
    let nonce = b64(bytes.as_slice());
    assert(bytes@.len() == 16);
    nonce
}

/// The frame of a message that is sent.
pub fn send_message(
    recipient: &str,
    message_id: &str,
    ciphertext: Vec<u8>,
    expires_at: Option<u64>,
) -> (result: Result<Vec<u8>, ClientError>)
    ensures
        match protocol::submit_encoding(
            protocol::SubmitView {
                recipient: recipient@,
                message_id: message_id@,
                expires_at,
                ciphertext: ciphertext@,
            },
        ) {
            Ok(frame) => result matches Ok(body) && body@ == frame,
            Err(fault) => result matches Err(error) && error == ClientError::InvalidFrame(fault),
        },
{
    match encode_submit(
        &Submit::new(recipient.to_owned(), message_id.to_owned(), expires_at, ciphertext),
    ) {
        Ok(body) => Ok(body),
        Err(fault) => Err(ClientError::InvalidFrame(fault)),
    }
}

// ---------------------------------------------------------------------------
// Answers
// ---------------------------------------------------------------------------

/// An answer with JSON in it must not be too long, and must say that all is well.
pub fn parse_json(status: u16, body: &[u8]) -> (result: Result<(), ClientError>)
    ensures
        if body@.len() > MAX_RESPONSE_BYTES {
            result matches Err(error) && error == ClientError::ResponseTooLarge
        } else if status != 200 {
            result matches Err(ClientError::Refused { status: s, body: b }) && s == status && b@
                == text::lossy_text(body@)
        } else {
            result is Ok
        },
{
    if body.len() > MAX_RESPONSE_BYTES {
        return Err(ClientError::ResponseTooLarge);
    }
    check_status(status, body)
}

/// An answer must say that all is well.
pub fn check_status(status: u16, body: &[u8]) -> (result: Result<(), ClientError>)
    ensures
        if status != 200 {
            result matches Err(ClientError::Refused { status: s, body: b }) && s == status && b@
                == text::lossy_text(body@)
        } else {
            result is Ok
        },
{
    if status != 200 {
        return Err(ClientError::Refused { status, body: utf8_lossy(body) });
    }
    Ok(())
}

/// The contents of every message of a list.
pub open spec fn relay_views(messages: Seq<RelayMessage>) -> Seq<MessageView> {
    messages.map_values(|message: RelayMessage| message@)
}

fn relay_message(message: Message) -> (result: RelayMessage)
    ensures
        result@ == message@,
{
    RelayMessage {
        server_id: message.server_id,
        sender: message.sender,
        sender_address: message.sender_address,
        message_id: message.message_id,
        ciphertext: message.ciphertext,
        accepted_at: message.accepted_at,
        expires_at: message.expires_at,
    }
}

/// Reads the messages in an answer.
pub fn parse_binary_messages(input: &[u8]) -> (result: Result<Vec<RelayMessage>, ClientError>)
    ensures
        match protocol::messages_decoding(input@) {
            Ok(values) => result matches Ok(messages) && relay_views(messages@) == values,
            Err(fault) => result matches Err(error) && error == ClientError::InvalidFrame(fault),
        },
{
    match decode_messages(input) {
        Err(fault) => Err(ClientError::InvalidFrame(fault)),
        Ok(decoded) => {
            let ghost all = protocol::message_views(decoded@);
            let mut rest = decoded;
            let mut messages: Vec<RelayMessage> = Vec::new();
            assert(relay_views(messages@) =~= all.take(0));
            assert(protocol::message_views(rest@) =~= all.skip(0));
            while rest.len() > 0
                invariant
                    messages@.len() + rest@.len() == all.len(),
                    relay_views(messages@) == all.take(messages@.len() as int),
                    protocol::message_views(rest@) == all.skip(messages@.len() as int),
                decreases rest@.len(),
            {
                let ghost before = messages@;
                let ghost whole = rest@;
                let message = rest.remove(0);
                assert(message@ == protocol::message_views(whole)[0]);
                messages.push(relay_message(message));
                assert(relay_views(messages@) =~= relay_views(before).push(message@));
                assert(relay_views(messages@) =~= all.take(messages@.len() as int));
                assert(protocol::message_views(rest@) =~= all.skip(messages@.len() as int)) by {
                    assert(rest@ =~= whole.skip(1));
                    assert(protocol::message_views(rest@) =~= protocol::message_views(whole).skip(
                        1,
                    ));
                }
            }
            assert(all.take(messages@.len() as int) =~= all);
            Ok(messages)
        },
    }
}

/// The message that the relay took, out of its answer.
pub fn sent_message(input: &[u8]) -> (result: Result<RelayMessage, ClientError>)
    ensures
        match protocol::messages_decoding(input@) {
            Err(fault) => result matches Err(error) && error == ClientError::InvalidFrame(fault),
            Ok(values) => if values.len() > 0 {
                result matches Ok(message) && message@ == values[0]
            } else {
                result matches Err(error) && error == ClientError::NoSentMessage
            },
        },
{
    let mut messages = parse_binary_messages(input)?;
    if messages.len() == 0 {
        return Err(ClientError::NoSentMessage);
    }
    assert(relay_views(messages@)[0] == messages@[0]@);
    Ok(messages.remove(0))
}

/// A message as every transport hands it on: its number is its transport ID.
pub open spec fn transport_view(message: MessageView) -> TransportMessageView {
    TransportMessageView {
        transport_id: text::signed_decimal(message.server_id as int),
        sender: message.sender,
        sender_address: message.sender_address,
        message_id: message.message_id,
        ciphertext: message.ciphertext,
        accepted_at: message.accepted_at,
        expires_at: message.expires_at,
    }
}

/// Hands a message on.
pub fn transport_message(message: RelayMessage) -> (result: TransportMessage)
    ensures
        result@ == transport_view(message@),
{
    TransportMessage::new(
        signed_decimal_text(message.server_id),
        message.sender,
        message.sender_address,
        message.message_id,
        message.ciphertext,
        message.accepted_at,
        message.expires_at,
    )
}

/// The number of a message that was handed on.
pub fn transport_server_id(message: &TransportMessage) -> (result: Result<i64, ClientError>)
    ensures
        match text::parsed_i64(message@.transport_id) {
            Some(number) => result matches Ok(server_id) && server_id == number,
            None => result matches Err(error) && error == ClientError::InvalidTransportId,
        },
{
    match parse_i64(message.transport_id.as_str()) {
        Some(server_id) => Ok(server_id),
        None => Err(ClientError::InvalidTransportId),
    }
}

/// A message that was handed on is acknowledged under the number that it had.
pub proof fn law_transport_id_round_trip(message: MessageView)
    ensures
        text::parsed_i64(transport_view(message).transport_id) == Some(message.server_id),
{
    text::law_decimal_round_trip(message.server_id);
}

/// What became of a message.
pub fn delivery_status(status: &RelayMessageStatus) -> (result: Result<DeliveryStatus, ClientError>)
    ensures
        if status.status@ == "sent"@ {
            result matches Ok(found) && found == DeliveryStatus::Sent
        } else if status.status@ == "read"@ {
            result matches Ok(found) && found == DeliveryStatus::Read
        } else {
            result matches Err(ClientError::UnknownDeliveryStatus(other)) && other@
                == status.status@
        },
{
    if same_text(status.status.as_str(), "sent") {
        Ok(DeliveryStatus::Sent)
    } else if same_text(status.status.as_str(), "read") {
        Ok(DeliveryStatus::Read)
    } else {
        Err(ClientError::UnknownDeliveryStatus(status.status.clone()))
    }
}

/// Whether a request is what a response says of a contact.
pub open spec fn is_request_of(request: ContactRequest, response: ContactResponse) -> bool {
    &&& request.request_id@ == response.request_id@
    &&& request.sender_id@ == response.sender_id@
    &&& request.sender_name@ == response.sender_name@
    &&& request.sender_fingerprint@ == response.sender_fingerprint@
    &&& primitives::base64_bytes(response.bundle@) == Some(request.bundle@)
}

/// The contact in a response.
pub fn contact_request(response: &ContactResponse) -> (result: Result<ContactRequest, ClientError>)
    ensures
        match primitives::base64_bytes(response.bundle@) {
            Some(_) => result matches Ok(request) && is_request_of(request, *response),
            None => result matches Err(error) && error == ClientError::InvalidBase64,
        },
{
    match b64decode(response.bundle.as_str()) {
        None => Err(ClientError::InvalidBase64),
        Some(bundle) => Ok(
            ContactRequest::new(
                response.request_id.clone(),
                response.sender_id.clone(),
                response.sender_name.clone(),
                response.sender_fingerprint.clone(),
                bundle,
            ),
        ),
    }
}

/// The responses that are taken: all of them, or those that were accepted.
pub open spec fn taken(responses: Seq<ContactResponse>, accepted_only: bool) -> Seq<ContactResponse>
    decreases responses.len(),
{
    if responses.len() == 0 {
        Seq::empty()
    } else {
        let earlier = taken(responses.drop_last(), accepted_only);
        if accepted_only && responses.last().status@ != "accepted"@ {
            earlier
        } else {
            earlier.push(responses.last())
        }
    }
}

/// Whether requests are what responses say, one for one.
pub open spec fn are_requests_of(requests: Seq<ContactRequest>, responses: Seq<ContactResponse>) -> bool {
    requests.len() == responses.len() && forall|i: int|
        0 <= i < requests.len() ==> is_request_of(#[trigger] requests[i], responses[i])
}

/// Whether the bundles of all responses can be read.
pub open spec fn all_readable(responses: Seq<ContactResponse>) -> bool {
    forall|i: int|
        0 <= i < responses.len() ==> primitives::base64_bytes(
            (#[trigger] responses[i]).bundle@,
        ) is Some
}

fn take_contacts(responses: &Vec<ContactResponse>, accepted_only: bool) -> (result: Result<
    Vec<ContactRequest>,
    ClientError,
>)
    ensures
        if all_readable(taken(responses@, accepted_only)) {
            result matches Ok(requests) && are_requests_of(
                requests@,
                taken(responses@, accepted_only),
            )
        } else {
            result matches Err(error) && error == ClientError::InvalidBase64
        },
{
    let mut requests: Vec<ContactRequest> = Vec::new();
    let mut readable = true;
    let mut index: usize = 0;
    assert(responses@.take(0) =~= Seq::empty());
    while index < responses.len()
        invariant
            index <= responses@.len(),
            readable == all_readable(taken(responses@.take(index as int), accepted_only)),
            readable ==> are_requests_of(
                requests@,
                taken(responses@.take(index as int), accepted_only),
            ),
        decreases responses@.len() - index,
    {
        let ghost before = taken(responses@.take(index as int), accepted_only);
        let ghost known = requests@;
        let response = &responses[index];
        assert(responses@.take(index + 1).drop_last() =~= responses@.take(index as int));
        assert(responses@.take(index + 1).last() == response);
        if !accepted_only || same_text(response.status.as_str(), "accepted") {
            let ghost after = before.push(*response);
            assert(taken(responses@.take(index + 1), accepted_only) == after);
            assert(after[before.len() as int] == *response);
            assert forall|i: int| 0 <= i < before.len() implies after[i] == before[i] by {}
            match contact_request(response) {
                Ok(request) => {
                    requests.push(request);
                    proof {
                        if readable {
                            assert(all_readable(after));
                            assert(are_requests_of(requests@, after));
                        } else {
                            let i = choose|i: int|
                                0 <= i < before.len() && primitives::base64_bytes(
                                    (#[trigger] before[i]).bundle@,
                                ) is None;
                            assert(after[i] == before[i]);
                            assert(!all_readable(after));
                        }
                    }
                },
                Err(_) => {
                    assert(primitives::base64_bytes(after[before.len() as int].bundle@) is None);
                    assert(!all_readable(after));
                    readable = false;
                },
            }
        }
        index += 1;
    }
    assert(responses@.take(index as int) =~= responses@);
    if readable {
        Ok(requests)
    } else {
        Err(ClientError::InvalidBase64)
    }
}

/// The contacts in an answer.
pub fn contact_requests(responses: &Vec<ContactResponse>) -> (result: Result<
    Vec<ContactRequest>,
    ClientError,
>)
    ensures
        if all_readable(taken(responses@, false)) {
            result matches Ok(requests) && are_requests_of(requests@, taken(responses@, false))
        } else {
            result matches Err(error) && error == ClientError::InvalidBase64
        },
{
    take_contacts(responses, false)
}

/// The contacts in an answer that were accepted.
pub fn accepted_contacts(responses: &Vec<ContactResponse>) -> (result: Result<
    Vec<ContactRequest>,
    ClientError,
>)
    ensures
        if all_readable(taken(responses@, true)) {
            result matches Ok(requests) && are_requests_of(requests@, taken(responses@, true))
        } else {
            result matches Err(error) && error == ClientError::InvalidBase64
        },
{
    take_contacts(responses, true)
}

/// Taking all responses leaves none out.
pub proof fn law_all_contacts_are_taken(responses: Seq<ContactResponse>)
    ensures
        taken(responses, false) == responses,
    decreases responses.len(),
{
    if responses.len() > 0 {
        law_all_contacts_are_taken(responses.drop_last());
        assert(responses.drop_last().push(responses.last()) =~= responses);
    } else {
        assert(taken(responses, false) =~= responses);
    }
}

/// The bundle that the relay holds.
pub open spec fn held_bundle(encoded: Seq<char>) -> Result<BundleView, ClientError> {
    match primitives::base64_bytes(encoded) {
        None => Err(ClientError::InvalidBase64),
        Some(bytes) => match bundle::bundle_decoding(bytes) {
            Ok(value) => Ok(value),
            Err(fault) => Err(ClientError::InvalidBundle(fault)),
        },
    }
}

/// Reads a bundle that the relay holds.
pub fn decode_bundle(bundle: &RelayBundle) -> (result: Result<SignalPreKeyBundle, ClientError>)
    ensures
        match held_bundle(bundle.bundle@) {
            Ok(value) => result matches Ok(decoded) && decoded@ == value,
            Err(fault) => result matches Err(error) && error == fault,
        },
{
    match b64decode(bundle.bundle.as_str()) {
        None => Err(ClientError::InvalidBase64),
        Some(bytes) => match SignalPreKeyBundle::decode(bytes.as_slice()) {
            Ok(decoded) => Ok(decoded),
            Err(fault) => Err(ClientError::InvalidBundle(fault)),
        },
    }
}

// ---------------------------------------------------------------------------
// Trying again
// ---------------------------------------------------------------------------

/// Whether a refusal may be gone the next time.
pub open spec fn is_transient(status: u16) -> bool {
    status == 408 || status == 425 || status == 429 || 500 <= status < 600
}

/// Whether a refusal may be gone the next time.
pub fn retryable_status(status: u16) -> (retryable: bool)
    ensures
        retryable == is_transient(status),
{
    status == 408 || status == 425 || status == 429 || (500 <= status && status < 600)
}

/// How many milliseconds to wait behind an attempt, the first having the number
/// zero: a quarter of a second, doubled up to three times.
pub open spec fn delay_behind(attempt: int) -> u64 {
    if attempt <= 0 {
        250
    } else if attempt == 1 {
        500
    } else if attempt == 2 {
        1000
    } else {
        2000
    }
}

/// How many milliseconds to wait behind an attempt.
pub fn retry_delay(attempt: usize) -> (milliseconds: u64)
    ensures
        milliseconds == delay_behind(attempt as int),
{
    match attempt {
        0 => 250,
        1 => 500,
        2 => 1000,
        _ => 2000,
    }
}

/// What came of sending a request.
#[derive(Clone, Copy, Debug, PartialEq, Eq, Structural)]
pub enum Attempt {
    /// The relay answered with a status.
    Answered(u16),
    /// Nothing came back.
    Failed,
}

/// What to do next.
#[derive(Clone, Copy, Debug, PartialEq, Eq, Structural)]
pub enum RetryAction {
    /// Take the answer.
    Take,
    /// Wait for some milliseconds and send the request again.
    Wait(u64),
    /// Give the error back.
    GiveUp,
}

/// What to do behind an attempt.
pub open spec fn retry_step(attempt: int, outcome: Attempt) -> RetryAction {
    let last = attempt + 1 >= MAX_REQUEST_ATTEMPTS;
    match outcome {
        Attempt::Answered(status) => if is_transient(status) && !last {
            RetryAction::Wait(delay_behind(attempt))
        } else {
            RetryAction::Take
        },
        Attempt::Failed => if last {
            RetryAction::GiveUp
        } else {
            RetryAction::Wait(delay_behind(attempt))
        },
    }
}

/// A request that is on its way.
#[derive(Debug)]
pub struct Retry {
    /// How often it has been sent before.
    pub attempt: usize,
}

impl Retry {
    pub open spec fn wf(self) -> bool {
        self.attempt < MAX_REQUEST_ATTEMPTS
    }

    pub fn new() -> (retry: Retry)
        ensures
            retry.wf(),
            retry.attempt == 0,
    {
        Retry { attempt: 0 }
    }

    /// Says what to do now that an attempt has ended.
    pub fn step(&mut self, outcome: Attempt) -> (action: RetryAction)
        requires
            old(self).wf(),
        ensures
            final(self).wf(),
            action == retry_step(old(self).attempt as int, outcome),
            final(self).attempt == (if action is Wait {
                old(self).attempt + 1
            } else {
                old(self).attempt as int
            }),
    {
        let attempt: usize = self.attempt;
        let last = attempt + 1 >= MAX_REQUEST_ATTEMPTS;
        let again = match outcome {
            Attempt::Answered(status) => retryable_status(status),
            Attempt::Failed => true,
        };
        if again && !last {
            self.attempt = attempt + 1;
            return RetryAction::Wait(retry_delay(attempt));
        }
        match outcome {
            Attempt::Answered(_) => RetryAction::Take,
            Attempt::Failed => RetryAction::GiveUp,
        }
    }
}

/// Only transient failures are tried again, and no request is sent more than a
/// fixed number of times.
pub proof fn law_retries_are_bounded(attempt: int, outcome: Attempt)
    requires
        0 <= attempt,
    ensures
        retry_step(attempt, outcome) is Wait ==> attempt + 1 < MAX_REQUEST_ATTEMPTS,
        retry_step(attempt, outcome) is Wait ==> (outcome is Failed || is_transient(
            outcome->Answered_0,
        )),
        outcome is Answered && !is_transient(outcome->Answered_0) ==> retry_step(attempt, outcome)
            is Take,
{
}

// ---------------------------------------------------------------------------
// Peers
// ---------------------------------------------------------------------------

/// A bundle that was fetched.
#[derive(Debug)]
pub struct CachedBundle {
    /// When it was fetched, in milliseconds.
    pub fetched_at: u64,
    pub bundle: SignalPreKeyBundle,
}

/// A relay, and what is known of the peers that it leads to.
#[derive(Debug)]
pub struct RelayTransport {
    pub client: RelayClient,
    pub peer_ids: TextTable<String>,
    pub peer_bundles: TextTable<CachedBundle>,
}

/// Where a message to a peer goes: to the ID that the relay has for it, or to its
/// address.
pub open spec fn recipient_of(ids: Map<Seq<char>, String>, peer: BundleView) -> Seq<char> {
    if ids.contains_key(peer.name) {
        ids[peer.name]@
    } else {
        signal::address_text(peer.name, peer.device_id)
    }
}

/// The bundle of a peer that was fetched a short time ago.
pub open spec fn fresh_bundle(
    bundles: Map<Seq<char>, CachedBundle>,
    peer: BundleView,
    now: u64,
) -> Option<BundleView> {
    let address = signal::address_text(peer.name, peer.device_id);
    if bundles.contains_key(address) && now - bundles[address].fetched_at < PEER_BUNDLE_CACHE_TTL {
        Some(bundles[address].bundle@)
    } else {
        None
    }
}

/// Whether a bundle belongs to the device and the identity that were verified.
pub open spec fn same_peer(fetched: BundleView, peer: BundleView) -> bool {
    signal::address_text(fetched.name, fetched.device_id) == signal::address_text(
        peer.name,
        peer.device_id,
    ) && fetched.identity_key == peer.identity_key
}

impl RelayTransport {
    pub open spec fn wf(self) -> bool {
        self.peer_ids.wf() && self.peer_bundles.wf()
    }

    pub fn new(client: RelayClient, peer_ids: TextTable<String>) -> (transport: RelayTransport)
        requires
            peer_ids.wf(),
        ensures
            transport.wf(),
            transport.client == client,
            transport.peer_ids == peer_ids,
            transport.peer_bundles@ == Map::<Seq<char>, CachedBundle>::empty(),
    {
        RelayTransport { client, peer_ids, peer_bundles: TextTable::new() }
    }

    pub fn base_url(&self) -> (url: &str)
        ensures
            url@ == self.client.config.base_url@,
    {
        self.client.base_url()
    }

    pub fn client_id(&self) -> (id: &str)
        ensures
            id@ == self.client.config.client_id@,
    {
        self.client.client_id()
    }

    pub fn is_registered(&self) -> (registered: bool)
        ensures
            registered == (self.client.access_token is Some),
    {
        self.client.is_registered()
    }

    pub fn peer_ids(&self) -> (peer_ids: &TextTable<String>)
        ensures
            *peer_ids == self.peer_ids,
    {
        &self.peer_ids
    }

    pub fn set_peer_id(&mut self, peer_name: &str, client_id: String)
        requires
            old(self).wf(),
        ensures
            final(self).wf(),
            final(self).peer_ids@ == old(self).peer_ids@.insert(peer_name@, client_id),
            final(self).peer_bundles == old(self).peer_bundles,
            final(self).client == old(self).client,
    {
        self.peer_ids.put(peer_name, client_id);
    }

    pub fn recipient_for(&self, peer: &SignalPreKeyBundle) -> (recipient: String)
        requires
            self.wf(),
        ensures
            recipient@ == recipient_of(self.peer_ids@, peer@),
    {
        match self.peer_ids.get(peer.name.as_str()) {
            Some(id) => id.clone(),
            None => peer.address(),
        }
    }

    pub fn sender_id_for(&self, peer: &SignalPreKeyBundle) -> (sender: Option<&str>)
        requires
            self.wf(),
        ensures
            if self.peer_ids@.contains_key(peer@.name) {
                sender matches Some(id) && id@ == self.peer_ids@[peer@.name]@
            } else {
                sender is None
            },
    {
        match self.peer_ids.get(peer.name.as_str()) {
            Some(id) => Some(id.as_str()),
            None => None,
        }
    }

    /// The bundle of a peer, if it was fetched a short time ago.
    pub fn cached_peer_bundle(&self, peer: &SignalPreKeyBundle, now: u64) -> (result: Option<
        SignalPreKeyBundle,
    >)
        requires
            self.wf(),
        ensures
            match fresh_bundle(self.peer_bundles@, peer@, now) {
                Some(value) => result matches Some(found) && found@ == value,
                None => result is None,
            },
    {
        match self.peer_bundles.get(peer.address().as_str()) {
            Some(cached) => {
                if now < cached.fetched_at || now - cached.fetched_at < PEER_BUNDLE_CACHE_TTL {
                    Some(cached.bundle.copy())
                } else {
                    None
                }
            },
            None => None,
        }
    }

    /// Takes in the bundle of a peer that the relay handed out. Only one of the
    /// identity that was verified is used.
    pub fn fetch_peer_bundle(&mut self, peer: &SignalPreKeyBundle, held: &RelayBundle, now: u64) -> (result:
        Result<SignalPreKeyBundle, ClientError>)
        requires
            old(self).wf(),
        ensures
            final(self).wf(),
            final(self).peer_ids == old(self).peer_ids,
            final(self).client == old(self).client,
            match held_bundle(held.bundle@) {
                Err(fault) => {
                    &&& result matches Err(error) && error == fault
                    &&& final(self).peer_bundles@ == old(self).peer_bundles@
                },
                Ok(value) => if same_peer(value, peer@) {
                    let address = signal::address_text(peer@.name, peer@.device_id);
                    &&& result matches Ok(found) && found@ == value
                    &&& final(self).peer_bundles@ == old(self).peer_bundles@.insert(
                        address,
                        final(self).peer_bundles@[address],
                    )
                    &&& final(self).peer_bundles@[address].bundle@ == value
                    &&& final(self).peer_bundles@[address].fetched_at == now
                } else {
                    &&& result matches Err(error) && error == ClientError::PeerMismatch
                    &&& final(self).peer_bundles@ == old(self).peer_bundles@
                },
            },
    {
        let fetched = decode_bundle(held)?;
        let address = peer.address();
        if !same_text(fetched.address().as_str(), address.as_str()) || !same_bytes(
            fetched.identity_key.as_slice(),
            peer.identity_key.as_slice(),
        ) {
            return Err(ClientError::PeerMismatch);
        }
        self.peer_bundles.put(
            address.as_str(),
            CachedBundle { fetched_at: now, bundle: fetched.copy() },
        );
        Ok(fetched)
    }

    /// Takes in the bundle of a device that is not known yet.
    pub fn fetch_peer_bundle_by_id(&mut self, held: &RelayBundle, now: u64) -> (result: Result<
        SignalPreKeyBundle,
        ClientError,
    >)
        requires
            old(self).wf(),
        ensures
            final(self).wf(),
            final(self).peer_ids == old(self).peer_ids,
            final(self).client == old(self).client,
            match held_bundle(held.bundle@) {
                Err(fault) => {
                    &&& result matches Err(error) && error == fault
                    &&& final(self).peer_bundles@ == old(self).peer_bundles@
                },
                Ok(value) => {
                    let address = signal::address_text(value.name, value.device_id);
                    &&& result matches Ok(found) && found@ == value
                    &&& final(self).peer_bundles@ == old(self).peer_bundles@.insert(
                        address,
                        final(self).peer_bundles@[address],
                    )
                    &&& final(self).peer_bundles@[address].bundle@ == value
                    &&& final(self).peer_bundles@[address].fetched_at == now
                },
            },
    {
        let fetched = decode_bundle(held)?;
        let address = fetched.address();
        self.peer_bundles.put(
            address.as_str(),
            CachedBundle { fetched_at: now, bundle: fetched.copy() },
        );
        Ok(fetched)
    }
}

// ---------------------------------------------------------------------------
// What the client asks for and takes
// ---------------------------------------------------------------------------

/// What is signed of a path is the part in front of its query, and all of a path that
/// has none.
pub proof fn law_query_is_not_signed(path: Seq<char>, query: Seq<char>)
    requires
        !path.contains('?'),
    ensures
        signed_path(path) == path,
        signed_path(path + seq!['?'] + query) == path,
{
    text::law_split_at_separators(path, '?', query);
}

/// A bundle that is held of a peer is used for less than a minute, and only under the
/// address of that peer.
pub proof fn law_held_bundle_is_fresh(
    bundles: Map<Seq<char>, CachedBundle>,
    peer: BundleView,
    now: u64,
)
    ensures
        ({
            let address = signal::address_text(peer.name, peer.device_id);
            &&& fresh_bundle(bundles, peer, now) is Some <==> bundles.contains_key(address) && now
                < bundles[address].fetched_at + 60_000
            &&& fresh_bundle(bundles, peer, now) matches Some(found) ==> found
                == bundles[address].bundle@
        }),
{
}

/// A bundle that is fetched for a peer is taken only with the address and the identity
/// that were verified: its identity cannot have been replaced on the way.
pub proof fn law_fetched_bundle_has_the_verified_identity(fetched: BundleView, peer: BundleView)
    ensures
        same_peer(fetched, peer) <==> fetched.identity_key == peer.identity_key
            && signal::address_text(fetched.name, fetched.device_id) == signal::address_text(
            peer.name,
            peer.device_id,
        ),
        same_peer(peer, peer),
        fetched.identity_key != peer.identity_key ==> !same_peer(fetched, peer),
{
}

/// A message to a peer goes to the ID that is known under the name of the peer, and to
/// its address where none is known.
pub proof fn law_recipient_is_the_peers(ids: Map<Seq<char>, String>, peer: BundleView, id: String)
    ensures
        recipient_of(ids.insert(peer.name, id), peer) == id@,
        !ids.contains_key(peer.name) ==> recipient_of(ids, peer) == signal::address_text(
            peer.name,
            peer.device_id,
        ),
        forall|other: Seq<char>|
            other != peer.name ==> recipient_of(#[trigger] ids.insert(other, id), peer)
                == recipient_of(ids, peer),
{
}

/// Of the answers of the relay all are taken, or exactly those that say "accepted", in
/// their order and as they are.
pub proof fn law_accepted_answers_are_taken(responses: Seq<ContactResponse>, accepted_only: bool) -> (at:
    Seq<int>)
    ensures
        rows::ascending(at, responses.len() as int),
        taken(responses, accepted_only).len() == at.len(),
        forall|k: int|
            0 <= k < at.len() ==> taken(responses, accepted_only)[k] == responses[#[trigger] at[k]],
        forall|j: int|
            0 <= j < responses.len() ==> (#[trigger] at.contains(j) <==> (!accepted_only
                || responses[j].status@ == "accepted"@)),
    decreases responses.len(),
{
    if responses.len() == 0 {
        Seq::empty()
    } else {
        let front = responses.drop_last();
        let last = responses.len() - 1;
        let earlier = law_accepted_answers_are_taken(front, accepted_only);
        let wanted = !accepted_only || responses.last().status@ == "accepted"@;
        let at = if wanted {
            earlier.push(last)
        } else {
            earlier
        };
        assert forall|k: int| 0 <= k < at.len() implies taken(responses, accepted_only)[k]
            == responses[#[trigger] at[k]] && 0 <= at[k] < responses.len() by {
            if k < earlier.len() {
                assert(at[k] == earlier[k]);
                assert(taken(front, accepted_only)[k] == front[earlier[k]]);
            }
        }
        assert forall|i: int, j: int| 0 <= i < j < at.len() implies #[trigger] at[i]
            < #[trigger] at[j] by {
            assert(at[i] == earlier[i]);
            if j < earlier.len() {
                assert(at[j] == earlier[j]);
            }
        }
        assert forall|j: int| 0 <= j < responses.len() implies (#[trigger] at.contains(j) <==> (
        !accepted_only || responses[j].status@ == "accepted"@)) by {
            if j < last {
                assert(front[j] == responses[j]);
                assert(earlier.contains(j) <==> (!accepted_only || front[j].status@
                    == "accepted"@));
                if earlier.contains(j) {
                    let k = choose|k: int| 0 <= k < earlier.len() && earlier[k] == j;
                    assert(at[k] == j);
                }
                if at.contains(j) {
                    let k = choose|k: int| 0 <= k < at.len() && at[k] == j;
                    assert(earlier[k] == j);
                }
            } else if wanted {
                assert(at[earlier.len() as int] == j);
            } else if at.contains(j) {
                let k = choose|k: int| 0 <= k < at.len() && at[k] == j;
                assert(0 <= earlier[k] < front.len());
            }
        }
        at
    }
}

/// A message of the relay reaches the conversation with its sender, ID, ciphertext and
/// times as they are, under its number.
pub proof fn law_message_is_passed_on_as_it_is(message: MessageView)
    ensures
        transport_view(message).sender == message.sender,
        transport_view(message).sender_address == message.sender_address,
        transport_view(message).message_id == message.message_id,
        transport_view(message).ciphertext == message.ciphertext,
        transport_view(message).accepted_at == message.accepted_at,
        transport_view(message).expires_at == message.expires_at,
        text::parsed_i64(transport_view(message).transport_id) == Some(message.server_id),
{
    law_transport_id_round_trip(message);
}

/// A request is tried four times at most. It is tried again only after a failure or an
/// answer that says that it may succeed later, and the wait doubles from a quarter of a
/// second up to a second. The last attempt is taken as it is.
pub proof fn law_requests_are_retried_with_patience(attempt: int, status: u16)
    requires
        0 <= attempt,
    ensures
        ({
            let later = status == 408 || status == 425 || status == 429 || (500 <= status && status
                <= 599);
            &&& retry_step(attempt, Attempt::Answered(status)) == (if later && attempt < 3 {
                RetryAction::Wait(delay_behind(attempt))
            } else {
                RetryAction::Take
            })
        }),
        retry_step(attempt, Attempt::Failed) == (if attempt < 3 {
            RetryAction::Wait(delay_behind(attempt))
        } else {
            RetryAction::GiveUp
        }),
        delay_behind(0) == 250,
        attempt < 3 ==> delay_behind(attempt + 1) == 2 * delay_behind(attempt),
        attempt >= 3 ==> delay_behind(attempt) == 2000,
{
}

/// A bundle of the relay is taken where it is Base64 and its bytes are a bundle, which
/// it then is.
pub proof fn law_held_bundle_is_the_bundle(encoded: Seq<char>, value: BundleView)
    ensures
        held_bundle(encoded) == Ok::<BundleView, ClientError>(value) <==> {
            &&& primitives::base64_bytes(encoded) matches Some(bytes)
            &&& bundle::bundle_decoding(bytes) is Ok
            &&& bundle::bundle_decoding(bytes)->Ok_0 == value
        },
        primitives::base64_bytes(encoded) is None ==> held_bundle(encoded) is Err
            && held_bundle(encoded)->Err_0 == ClientError::InvalidBase64,
{
}

/// The relay is reached under its own address with no slash at the end, and the paths of
/// the client follow it. The allowlist is reached under the same address.
pub proof fn law_allowlist_is_under_the_address(value: Seq<char>, scheme: Seq<char>, allow_http: bool)
    ensures
        allowlist_url(value, Some(scheme), allow_http) is Ok <==> scheme == "https"@ || (allow_http
            && scheme == "http"@),
        allowlist_url(value, Some(scheme), allow_http) matches Ok(url) ==> {
            let base = text::without_end(value, '/');
            &&& url.take(base.len() as int) == base
            &&& url.skip(base.len() as int) == "/v1/admin/allowlist"@
            &&& base.len() == 0 || base.last() != '/'
        },
        allowlist_url(value, None, allow_http) is Err,
{
    let base = text::without_end(value, '/');
    text::law_end_is_taken_away(value, '/');
    let url = base + "/v1/admin/allowlist"@;
    assert(url.take(base.len() as int) =~= base);
    assert(url.skip(base.len() as int) =~= "/v1/admin/allowlist"@);
}

/// A URL whose path ends in a slash is used as it is, without the slashes at its end.
/// Another one gets a slash behind its path first. What cannot be read is no URL.
pub proof fn law_relay_is_reached_under_its_address(
    value: Seq<char>,
    path: Seq<char>,
    shown: Seq<char>,
    allow_insecure_http: bool,
)
    requires
        encode_utf8(shown).len() < 0xffff_ffff,
    ensures
        ({
            let base = relay_base(value, Some(("https"@, path, shown)), allow_insecure_http);
            &&& path.len() > 0 && path[path.len() - 1] == '/' ==> base == Ok::<
                Seq<char>,
                ClientError,
            >(text::without_end(shown, '/'))
            &&& path.len() == 0 || path[path.len() - 1] != '/' ==> base == Ok::<
                Seq<char>,
                ClientError,
            >(text::without_end(url_with_path(value, path.push('/')), '/'))
        }),
        relay_base(value, None, allow_insecure_http) == Err::<Seq<char>, ClientError>(
            ClientError::InvalidUrl,
        ),
{
    reveal_strlit("/");
    assert(path + "/"@ =~= path.push('/'));
}

} // verus!
