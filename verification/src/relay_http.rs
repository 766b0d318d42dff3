//! What the relay asks of a request before it reads what the request says.
use vstd::prelude::*;
use vstd::utf8::*;

use crate::bytes;
use crate::primitives;
use crate::primitives::{b64decode, decode_base64};
use crate::protocol;
use crate::protocol::{decode_submit, encode_messages, Message, MessageView, Submit, SubmitView};
use crate::text;
use crate::text::{
    contains_char, decimal_text, lower_text, same_text, split_text, strip_prefix, trim,
};

verus! {

pub const API_VERSION: &'static str = "safechat-relay-v1";

pub const JSON_MEDIA_TYPE: &'static str = "application/json";

pub const BINARY_MEDIA_TYPE: &'static str = "application/octet-stream";

pub const MAX_ID_BYTES: usize = 256;

pub const MAX_FINGERPRINT_BYTES: usize = 256;

pub const MAX_LABEL_BYTES: usize = 256;

pub const MAX_SECRET_BYTES: usize = 512;

pub const MAX_IDENTITY_B64_BYTES: usize = 256;

pub const MAX_SIGNATURE_B64_BYTES: usize = 512;

pub const MAX_BUNDLE_BYTES: usize = 1024 * 1024;

/// The longest identity key that is decoded.
pub const MAX_IDENTITY_BYTES: usize = 128;

/// The longest signature that is decoded.
pub const MAX_SIGNATURE_BYTES: usize = 256;

// ---------------------------------------------------------------------------
// Errors
// ---------------------------------------------------------------------------

/// What a refused request is answered.
#[derive(Clone, Debug, PartialEq, Eq)]
pub struct ApiError {
    pub status: u16,
    pub message: String,
}

/// The contents of an [`ApiError`].
#[verifier::ext_equal]
pub struct ErrorView {
    pub status: u16,
    pub message: Seq<char>,
}

impl View for ApiError {
    type V = ErrorView;

    open spec fn view(&self) -> ErrorView {
        ErrorView { status: self.status, message: self.message@ }
    }
}

/// The answer to a request whose sender is not known or may not make it.
pub open spec fn is_unauthorized() -> ErrorView {
    ErrorView { status: 401, message: "unauthorized"@ }
}

/// The answer to a request for what is not there.
pub open spec fn is_not_found() -> ErrorView {
    ErrorView { status: 404, message: "not found"@ }
}

/// The answer to a request that cannot be read.
pub open spec fn is_bad_request(message: Seq<char>) -> ErrorView {
    ErrorView { status: 400, message }
}

/// The answer to a request that the relay failed to serve.
pub open spec fn is_internal() -> ErrorView {
    ErrorView { status: 500, message: "internal server error"@ }
}

/// The answer to a request that was made before.
pub open spec fn is_replay() -> ErrorView {
    ErrorView { status: 409, message: "request nonce already used"@ }
}

pub fn unauthorized() -> (error: ApiError)
    ensures
        error@ == is_unauthorized(),
{
    ApiError { status: 401, message: "unauthorized".to_owned() }
}

pub fn not_found() -> (error: ApiError)
    ensures
        error@ == is_not_found(),
{
    ApiError { status: 404, message: "not found".to_owned() }
}

pub fn bad_request(message: String) -> (error: ApiError)
    ensures
        error@ == is_bad_request(message@),
{
    ApiError { status: 400, message }
}

/// The answer says nothing of the error.
pub fn internal(_error: &str) -> (error: ApiError)
    ensures
        error@ == is_internal(),
{
    ApiError { status: 500, message: "internal server error".to_owned() }
}

pub fn replay() -> (error: ApiError)
    ensures
        error@ == is_replay(),
{
    ApiError { status: 409, message: "request nonce already used".to_owned() }
}

// ---------------------------------------------------------------------------
// Headers
// ---------------------------------------------------------------------------

/// The value of a header.
#[derive(Clone, Debug, PartialEq, Eq)]
pub enum Header {
    /// The request does not have it.
    Missing,
    /// It is not made of visible ASCII characters.
    Unreadable,
    Text(String),
}

/// The contents of a [`Header`].
pub enum HeaderView {
    Missing,
    Unreadable,
    Text(Seq<char>),
}

impl View for Header {
    type V = HeaderView;

    open spec fn view(&self) -> HeaderView {
        match *self {
            Header::Missing => HeaderView::Missing,
            Header::Unreadable => HeaderView::Unreadable,
            Header::Text(value) => HeaderView::Text(value@),
        }
    }
}

/// The headers that the relay reads.
#[derive(Clone, Debug, PartialEq, Eq)]
pub struct RequestHeaders {
    pub content_type: Header,
    pub accept: Header,
    pub authorization: Header,
    pub nonce: Header,
    pub timestamp: Header,
    pub signature: Header,
}

impl RequestHeaders {
    /// A request without headers.
    pub fn empty() -> (headers: RequestHeaders)
        ensures
            headers.content_type@ == HeaderView::Missing,
            headers.accept@ == HeaderView::Missing,
            headers.authorization@ == HeaderView::Missing,
            headers.nonce@ == HeaderView::Missing,
            headers.timestamp@ == HeaderView::Missing,
            headers.signature@ == HeaderView::Missing,
    {
        RequestHeaders {
            content_type: Header::Missing,
            accept: Header::Missing,
            authorization: Header::Missing,
            nonce: Header::Missing,
            timestamp: Header::Missing,
            signature: Header::Missing,
        }
    }
}

/// The text of a header, if it can be read.
pub open spec fn header_text(value: HeaderView) -> Option<Seq<char>> {
    match value {
        HeaderView::Text(shown) => Some(shown),
        _ => None,
    }
}

/// The token of a bearer authorization.
pub open spec fn bearer_token(authorization: HeaderView) -> Option<Seq<char>> {
    match authorization {
        HeaderView::Text(value) => if text::opens_with(value, "Bearer "@) {
            Some(value.skip(7))
        } else {
            None
        },
        _ => None,
    }
}

/// The token of a bearer authorization.
pub fn bearer(headers: &RequestHeaders) -> (token: Option<String>)
    ensures
        match bearer_token(headers.authorization@) {
            Some(value) => token matches Some(result) && result@ == value,
            None => token is None,
        },
{
    match &headers.authorization {
        Header::Text(value) => {
            proof {
                reveal_strlit("Bearer ");
            }
            strip_prefix(value.as_str(), "Bearer ")
        },
        _ => None,
    }
}

/// What is said of a header that cannot be read.
pub open spec fn unreadable_header() -> Seq<char> {
    "failed to convert header to a str"@
}

/// A media type that the relay speaks.
#[derive(Clone, Copy, Debug, PartialEq, Eq, Structural)]
pub enum MediaType {
    Json,
    Binary,
}

/// The media type of a content type: parameters, white space around it and the case
/// of its letters do not matter.
pub open spec fn content_media(value: Seq<char>) -> Seq<char> {
    text::ascii_lowered(text::trimmed(text::split(value, ';')[0]))
}

/// The media type of a request's content.
pub open spec fn content_type(header: HeaderView) -> Result<Option<MediaType>, Seq<char>> {
    match header {
        HeaderView::Missing => Ok(None),
        HeaderView::Unreadable => Err(unreadable_header()),
        HeaderView::Text(value) => if content_media(value) == JSON_MEDIA_TYPE@ {
            Ok(Some(MediaType::Json))
        } else if content_media(value) == BINARY_MEDIA_TYPE@ {
            Ok(Some(MediaType::Binary))
        } else {
            Err("unsupported content-type media type"@)
        },
    }
}

/// The media type of a request's content.
pub fn media_type(headers: &RequestHeaders) -> (result: Result<Option<MediaType>, String>)
    ensures
        match content_type(headers.content_type@) {
            Ok(value) => result matches Ok(found) && found == value,
            Err(message) => result matches Err(error) && error@ == message,
        },
{
    match &headers.content_type {
        Header::Missing => Ok(None),
        Header::Unreadable => Err("failed to convert header to a str".to_owned()),
        Header::Text(value) => {
            let parts = split_text(value.as_str(), ';');
            assert(text::views(parts@)[0] == parts@[0]@);
            let media = lower_text(trim(parts[0].as_str()).as_str());
            if same_text(media.as_str(), JSON_MEDIA_TYPE) {
                Ok(Some(MediaType::Json))
            } else if same_text(media.as_str(), BINARY_MEDIA_TYPE) {
                Ok(Some(MediaType::Binary))
            } else {
                Err("unsupported content-type media type".to_owned())
            }
        },
    }
}

/// Whether a request's content is JSON.
pub open spec fn json_content(header: HeaderView) -> Result<(), Seq<char>> {
    match content_type(header) {
        Err(message) => Err(message),
        Ok(media) => if media == Some(MediaType::Json) {
            Ok(())
        } else {
            Err("Content-Type must be application/json"@)
        },
    }
}

/// The content must be JSON.
pub fn require_json_content(headers: &RequestHeaders) -> (result: Result<(), String>)
    ensures
        match json_content(headers.content_type@) {
            Ok(_) => result is Ok,
            Err(message) => result matches Err(error) && error@ == message,
        },
{
    match media_type(headers) {
        Err(message) => Err(message),
        Ok(Some(MediaType::Json)) => Ok(()),
        Ok(_) => Err("Content-Type must be application/json".to_owned()),
    }
}

/// Whether a request's content is JSON, where it says what it is.
pub open spec fn optional_json_content(header: HeaderView) -> Result<(), Seq<char>> {
    if header == HeaderView::Missing {
        Ok(())
    } else {
        json_content(header)
    }
}

/// The content must be JSON, where the request says what it is.
pub fn validate_optional_json_content(headers: &RequestHeaders) -> (result: Result<(), String>)
    ensures
        match optional_json_content(headers.content_type@) {
            Ok(_) => result is Ok,
            Err(message) => result matches Err(error) && error@ == message,
        },
{
    match &headers.content_type {
        Header::Missing => Ok(()),
        _ => require_json_content(headers),
    }
}

/// The media types that a request accepts.
pub open spec fn accepted(value: Seq<char>) -> Seq<Seq<char>> {
    text::split(value, ',').map_values(|part: Seq<char>| text::trimmed(part))
}

fn accepted_types(value: &str) -> (parts: Vec<String>)
    ensures
        text::views(parts@) == accepted(value@),
{
    let listed = split_text(value, ',');
    let mut parts: Vec<String> = Vec::new();
    let mut index: usize = 0;
    let ghost all = accepted(value@);
    assert(text::views(parts@) =~= all.take(0));
    while index < listed.len()
        invariant
            index <= listed@.len(),
            text::views(listed@) == text::split(value@, ','),
            all == accepted(value@),
            text::views(parts@) == all.take(index as int),
        decreases listed@.len() - index,
    {
        let ghost before = parts@;
        let part = trim(listed[index].as_str());
        assert(text::views(listed@)[index as int] == listed@[index as int]@);
        parts.push(part);
        assert(text::views(parts@) =~= text::views(before).push(part@));
        assert(text::views(parts@) =~= all.take(index + 1));
        index += 1;
    }
    assert(all.take(index as int) =~= all);
    parts
}

/// Whether a request takes JSON for an answer and nothing else.
pub open spec fn json_accept(header: HeaderView) -> Result<(), Seq<char>> {
    match header {
        HeaderView::Missing => Ok(()),
        HeaderView::Unreadable => Err(unreadable_header()),
        HeaderView::Text(value) => if all_take_json(accepted(value)) {
            Ok(())
        } else {
            Err("Accept must be application/json"@)
        },
    }
}

/// A media type that a JSON answer has.
pub open spec fn takes_json(part: Seq<char>) -> bool {
    part == JSON_MEDIA_TYPE@ || part == "*/*"@
}

/// Whether a JSON answer has every one of some media types.
pub open spec fn all_take_json(parts: Seq<Seq<char>>) -> bool {
    forall|i: int| 0 <= i < parts.len() ==> takes_json(#[trigger] parts[i])
}

/// The answer must be allowed to be JSON.
pub fn validate_json_accept(headers: &RequestHeaders) -> (result: Result<(), String>)
    ensures
        match json_accept(headers.accept@) {
            Ok(_) => result is Ok,
            Err(message) => result matches Err(error) && error@ == message,
        },
{
    match &headers.accept {
        Header::Missing => Ok(()),
        Header::Unreadable => Err("failed to convert header to a str".to_owned()),
        Header::Text(value) => {
            let parts = accepted_types(value.as_str());
            let ghost all = accepted(value@);
            let mut json = true;
            let mut index: usize = 0;
            while index < parts.len()
                invariant
                    index <= parts@.len(),
                    text::views(parts@) == all,
                    json == forall|i: int| 0 <= i < index ==> takes_json(#[trigger] all[i]),
                decreases parts@.len() - index,
            {
                let part = parts[index].as_str();
                assert(text::views(parts@)[index as int] == part@);
                if !same_text(part, JSON_MEDIA_TYPE) && !same_text(part, "*/*") {
                    assert(!takes_json(all[index as int]));
                    json = false;
                }
                index += 1;
            }
            assert(json == all_take_json(all));
            if json {
                Ok(())
            } else {
                Err("Accept must be application/json".to_owned())
            }
        },
    }
}

/// Whether a request takes a binary answer.
pub open spec fn binary_accept(header: HeaderView) -> Result<bool, Seq<char>> {
    match header {
        HeaderView::Missing => Ok(false),
        HeaderView::Unreadable => Err(unreadable_header()),
        HeaderView::Text(value) => {
            let parts = accepted(value);
            if !all_plain(parts) {
                Err("unsupported Accept media type or parameters"@)
            } else if !all_known(parts) {
                Err("unsupported Accept media type"@)
            } else {
                Ok(some_take_binary(parts))
            }
        },
    }
}

/// A media type without parameters.
pub open spec fn is_plain_type(part: Seq<char>) -> bool {
    part.len() > 0 && !part.contains(';')
}

/// A media type that an answer can have.
pub open spec fn is_known_type(part: Seq<char>) -> bool {
    part == JSON_MEDIA_TYPE@ || part == BINARY_MEDIA_TYPE@ || part == "*/*"@
}

/// A media type that a binary answer has.
pub open spec fn takes_binary(part: Seq<char>) -> bool {
    part == BINARY_MEDIA_TYPE@ || part == "*/*"@
}

/// Whether no media type has parameters.
pub open spec fn all_plain(parts: Seq<Seq<char>>) -> bool {
    forall|i: int| 0 <= i < parts.len() ==> is_plain_type(#[trigger] parts[i])
}

/// Whether an answer can have every one of some media types.
pub open spec fn all_known(parts: Seq<Seq<char>>) -> bool {
    forall|i: int| 0 <= i < parts.len() ==> is_known_type(#[trigger] parts[i])
}

/// Whether a binary answer has one of some media types.
pub open spec fn some_take_binary(parts: Seq<Seq<char>>) -> bool {
    exists|i: int| 0 <= i < parts.len() && takes_binary(#[trigger] parts[i])
}

/// Whether the answer may be binary.
pub fn wants_binary(headers: &RequestHeaders) -> (result: Result<bool, String>)
    ensures
        match binary_accept(headers.accept@) {
            Ok(wanted) => result matches Ok(value) && value == wanted,
            Err(message) => result matches Err(error) && error@ == message,
        },
{
    let value = match &headers.accept {
        Header::Missing => return Ok(false),
        Header::Unreadable => return Err("failed to convert header to a str".to_owned()),
        Header::Text(value) => value,
    };
    let parts = accepted_types(value.as_str());
    let ghost all = accepted(value@);
    let mut plain = true;
    let mut known = true;
    let mut wanted = false;
    let mut index: usize = 0;
    while index < parts.len()
        invariant
            index <= parts@.len(),
            text::views(parts@) == all,
            plain == forall|i: int| 0 <= i < index ==> is_plain_type(#[trigger] all[i]),
            known == forall|i: int| 0 <= i < index ==> is_known_type(#[trigger] all[i]),
            wanted == exists|i: int| 0 <= i < index && takes_binary(#[trigger] all[i]),
        decreases parts@.len() - index,
    {
        let part = parts[index].as_str();
        assert(text::views(parts@)[index as int] == part@);
        assert(all[index as int] == part@);
        let binary = same_text(part, BINARY_MEDIA_TYPE) || same_text(part, "*/*");
        if part.is_empty() || contains_char(part, ';') {
            assert(!is_plain_type(all[index as int]));
            plain = false;
        }
        if !binary && !same_text(part, JSON_MEDIA_TYPE) {
            assert(!is_known_type(all[index as int]));
            known = false;
        }
        if binary {
            assert(takes_binary(all[index as int]));
            wanted = true;
        }
        index += 1;
    }
    assert(plain == all_plain(all));
    assert(known == all_known(all));
    assert(wanted == some_take_binary(all));
    if !plain {
        return Err("unsupported Accept media type or parameters".to_owned());
    }
    if !known {
        return Err("unsupported Accept media type".to_owned());
    }
    Ok(wanted)
}

/// Whether a request takes the answer of a message endpoint.
pub open spec fn message_accept(header: HeaderView) -> Result<(), Seq<char>> {
    match binary_accept(header) {
        Err(message) => Err(message),
        Ok(true) => Ok(()),
        Ok(false) => Err("message endpoints require Accept: application/octet-stream"@),
    }
}

/// The answer must be allowed to be binary.
pub fn require_binary_accept(headers: &RequestHeaders) -> (result: Result<(), String>)
    ensures
        match message_accept(headers.accept@) {
            Ok(_) => result is Ok,
            Err(message) => result matches Err(error) && error@ == message,
        },
{
    match wants_binary(headers) {
        Err(message) => Err(message),
        Ok(true) => Ok(()),
        Ok(false) => Err(
            "message endpoints require Accept: application/octet-stream".to_owned(),
        ),
    }
}

/// What a request is taken for does not decide what it is answered in: the content
/// type has no part in the negotiation.
pub proof fn law_negotiation_ignores_content(accept: HeaderView)
    requires
        accept == HeaderView::Text(JSON_MEDIA_TYPE@),
    ensures
        message_accept(accept) is Err,
{
    if message_accept(accept) is Ok {
        let value = JSON_MEDIA_TYPE@;
        reveal_strlit("application/json");
        reveal_strlit("application/octet-stream");
        reveal_strlit("*/*");
        lemma_single(value, ',');
        assert(accepted(value) =~= seq![text::trimmed(value)]);
        text::lemma_trim_end(value, Seq::empty());
        assert(value + Seq::<char>::empty() =~= value);
        assert(accepted(value)[0] == value);
        assert(value.len() == 16);
        assert(BINARY_MEDIA_TYPE@.len() == 24);
        assert("*/*"@.len() == 3);
        assert(!takes_binary(value));
        assert(false);
    }
}

proof fn lemma_single(value: Seq<char>, separator: char)
    requires
        !value.contains(separator),
    ensures
        text::split(value, separator) == seq![value],
    decreases value.len(),
{
    if value.len() == 0 {
        assert(value =~= Seq::empty());
    } else {
        assert(value.last() == value[value.len() - 1]);
        assert forall|c: char| value.drop_last().contains(c) implies value.contains(c) by {
            let i = choose|i: int| 0 <= i < value.len() - 1 && value.drop_last()[i] == c;
            assert(value[i] == c);
        }
        lemma_single(value.drop_last(), separator);
        assert(value.drop_last().push(value.last()) =~= value);
        assert(text::split(value, separator) =~= seq![value]);
    }
}

// ---------------------------------------------------------------------------
// Fields
// ---------------------------------------------------------------------------

/// What is said of a text that is too long.
pub open spec fn too_long(limit: usize, field: Seq<char>) -> Seq<char> {
    field + " exceeds maximum length of "@ + text::decimal(limit as nat) + " bytes"@
}

/// Whether a text is short enough.
pub open spec fn text_within(value: Seq<char>, limit: usize, field: Seq<char>) -> Result<
    (),
    Seq<char>,
> {
    if encode_utf8(value).len() > limit {
        Err(too_long(limit, field))
    } else {
        Ok(())
    }
}

/// A text must not be too long.
pub fn validate_text(value: &str, limit: usize, field: &str) -> (result: Result<(), String>)
    ensures
        match text_within(value@, limit, field@) {
            Ok(_) => result is Ok,
            Err(message) => result matches Err(error) && error@ == message,
        },
{
    if value.as_bytes().len() > limit {
        let mut message = field.to_owned();
        message.append(" exceeds maximum length of ");
        message.append(decimal_text(limit as u64).as_str());
        message.append(" bytes");
        return Err(message);
    }
    Ok(())
}

/// The bytes in a Base64 text of limited length.
pub open spec fn bounded_bytes(
    value: Seq<char>,
    encoded_limit: usize,
    decoded_limit: usize,
    field: Seq<char>,
) -> Result<Seq<u8>, Seq<char>> {
    if encode_utf8(value).len() > encoded_limit {
        Err(too_long(encoded_limit, field))
    } else {
        match primitives::base64_bytes(value) {
            None => Err(primitives::base64_fault(value)),
            Some(bytes) => if bytes.len() > decoded_limit {
                Err(field + " exceeds maximum decoded length"@)
            } else {
                Ok(bytes)
            },
        }
    }
}

/// Reads the bytes in a Base64 text of limited length.
pub fn decode_bounded_base64(
    value: &str,
    encoded_limit: usize,
    decoded_limit: usize,
    field: &str,
) -> (result: Result<Vec<u8>, String>)
    ensures
        match bounded_bytes(value@, encoded_limit, decoded_limit, field@) {
            Ok(bytes) => result matches Ok(decoded) && decoded@ == bytes,
            Err(message) => result matches Err(error) && error@ == message,
        },
{
    validate_text(value, encoded_limit, field)?;
    let decoded = decode_base64(value)?;
    if decoded.len() > decoded_limit {
        let mut message = field.to_owned();
        message.append(" exceeds maximum decoded length");
        return Err(message);
    }
    Ok(decoded)
}

// ---------------------------------------------------------------------------
// Messages
// ---------------------------------------------------------------------------

/// The message in a request.
pub open spec fn message_request(header: HeaderView, body: Seq<u8>) -> Result<
    SubmitView,
    Seq<char>,
> {
    match content_type(header) {
        Err(message) => Err(message),
        Ok(media) => if media != Some(MediaType::Binary) {
            Err("message submission requires Content-Type: application/octet-stream"@)
        } else {
            match protocol::submit_decoding(body) {
                Ok(value) => Ok(value),
                Err(error) => Err(protocol::error_text(error)),
            }
        },
    }
}

/// Reads the message in a request.
pub fn decode_message_request(headers: &RequestHeaders, body: &[u8]) -> (result: Result<
    Submit,
    String,
>)
    ensures
        match message_request(headers.content_type@, body@) {
            Ok(value) => result matches Ok(submit) && submit@ == value,
            Err(message) => result matches Err(error) && error@ == message,
        },
{
    match media_type(headers) {
        Err(message) => Err(message),
        Ok(Some(MediaType::Binary)) => match decode_submit(body) {
            Ok(submit) => Ok(submit),
            Err(error) => Err(error.message()),
        },
        Ok(_) => Err(
            "message submission requires Content-Type: application/octet-stream".to_owned(),
        ),
    }
}

/// A message in text form.
#[derive(Clone, Debug, PartialEq, Eq)]
pub struct MessageResponse {
    pub server_id: i64,
    pub sender: String,
    pub sender_address: Option<String>,
    pub message_id: String,
    pub ciphertext: String,
    pub accepted_at: u64,
    pub expires_at: Option<u64>,
}

/// The contents of a [`MessageResponse`].
#[verifier::ext_equal]
pub struct ResponseView {
    pub server_id: i64,
    pub sender: Seq<char>,
    pub sender_address: Option<Seq<char>>,
    pub message_id: Seq<char>,
    pub ciphertext: Seq<char>,
    pub accepted_at: u64,
    pub expires_at: Option<u64>,
}

impl View for MessageResponse {
    type V = ResponseView;

    open spec fn view(&self) -> ResponseView {
        ResponseView {
            server_id: self.server_id,
            sender: self.sender@,
            sender_address: protocol::optional_text(self.sender_address),
            message_id: self.message_id@,
            ciphertext: self.ciphertext@,
            accepted_at: self.accepted_at,
            expires_at: self.expires_at,
        }
    }
}

/// A message in binary form, if its ciphertext can be read.
pub open spec fn binary_form(value: ResponseView) -> Option<MessageView> {
    match primitives::base64_bytes(value.ciphertext) {
        Some(ciphertext) => Some(
            MessageView {
                server_id: value.server_id,
                sender: value.sender,
                sender_address: value.sender_address,
                message_id: value.message_id,
                accepted_at: value.accepted_at,
                expires_at: value.expires_at,
                ciphertext,
            },
        ),
        None => None,
    }
}

/// A message in binary form.
pub fn binary_message(message: &MessageResponse) -> (result: Option<Message>)
    ensures
        match binary_form(message@) {
            Some(value) => result matches Some(binary) && binary@ == value,
            None => result is None,
        },
{
    match b64decode(message.ciphertext.as_str()) {
        None => None,
        Some(ciphertext) => Some(
            Message {
                server_id: message.server_id,
                sender: message.sender.clone(),
                sender_address: match &message.sender_address {
                    Some(address) => Some(address.clone()),
                    None => None,
                },
                message_id: message.message_id.clone(),
                accepted_at: message.accepted_at,
                expires_at: message.expires_at,
                ciphertext,
            },
        ),
    }
}

/// The contents of every response of a list.
pub open spec fn response_views(messages: Seq<MessageResponse>) -> Seq<ResponseView> {
    messages.map_values(|message: MessageResponse| message@)
}

/// The frame that answers with messages, if their ciphertexts can be read and they
/// fit into a frame.
pub open spec fn messages_answer(messages: Seq<ResponseView>) -> Option<Seq<u8>> {
    if exists|i: int| 0 <= i < messages.len() && binary_form(#[trigger] messages[i]) is None {
        None
    } else {
        match protocol::messages_encoding(
            messages.map_values(|message: ResponseView| binary_form(message)->0),
        ) {
            Ok(frame) => Some(frame),
            Err(_) => None,
        }
    }
}

/// Writes messages in binary form.
pub fn encode_binary_messages(messages: &[MessageResponse]) -> (result: Option<Vec<u8>>)
    ensures
        match messages_answer(response_views(messages@)) {
            Some(frame) => result matches Some(bytes) && bytes@ == frame,
            None => result is None,
        },
{
    let mut binary: Vec<Message> = Vec::new();
    let ghost all = response_views(messages@);
    let ghost wanted = all.map_values(|message: ResponseView| binary_form(message)->0);
    let mut index: usize = 0;
    assert(protocol::message_views(binary@) =~= wanted.take(0));
    while index < messages.len()
        invariant
            index <= messages@.len(),
            all == response_views(messages@),
            wanted == all.map_values(|message: ResponseView| binary_form(message)->0),
            protocol::message_views(binary@) == wanted.take(index as int),
            forall|i: int| 0 <= i < index ==> binary_form(#[trigger] all[i]) is Some,
        decreases messages@.len() - index,
    {
        assert(all[index as int] == messages@[index as int]@);
        match binary_message(&messages[index]) {
            None => {
                assert(binary_form(all[index as int]) is None);
                return None;
            },
            Some(message) => {
                let ghost before = binary@;
                binary.push(message);
                assert(protocol::message_views(binary@) =~= protocol::message_views(before).push(
                    message@,
                ));
                assert(protocol::message_views(binary@) =~= wanted.take(index + 1));
            },
        }
        index += 1;
    }
    assert(wanted.take(index as int) =~= wanted);
    match encode_messages(binary.as_slice()) {
        Ok(frame) => Some(frame),
        Err(_) => None,
    }
}

// ---------------------------------------------------------------------------
// What headers and bodies are taken for
// ---------------------------------------------------------------------------

/// A token is what stands behind `Bearer ` in a header, and nothing else is one.
pub proof fn law_bearer_token_is_what_follows(value: Seq<char>, token: Seq<char>)
    ensures
        bearer_token(HeaderView::Text(value)) == Some(token) <==> value == "Bearer "@ + token,
        bearer_token(HeaderView::Missing) is None,
        bearer_token(HeaderView::Unreadable) is None,
{
    reveal_strlit("Bearer ");
    let all = "Bearer "@ + token;
    assert(all.take(7) =~= "Bearer "@);
    assert(all.skip(7) =~= token);
    if text::opens_with(value, "Bearer "@) {
        assert(value =~= "Bearer "@ + value.skip(7));
    }
}

/// Parameters of a media type, behind a semicolon, play no part in what it is.
pub proof fn law_media_parameters_play_no_part(media: Seq<char>, parameters: Seq<char>)
    requires
        !media.contains(';'),
    ensures
        content_type(HeaderView::Text(media + seq![';'] + parameters)) == content_type(
            HeaderView::Text(media),
        ),
        content_type(HeaderView::Text(media)) == Ok::<Option<MediaType>, Seq<char>>(
            Some(MediaType::Json),
        ) <==> text::ascii_lowered(text::trimmed(media)) == "application/json"@,
        content_type(HeaderView::Text(media)) == Ok::<Option<MediaType>, Seq<char>>(
            Some(MediaType::Binary),
        ) <==> text::ascii_lowered(text::trimmed(media)) == "application/octet-stream"@,
        content_type(HeaderView::Text(media)) != Ok::<Option<MediaType>, Seq<char>>(None),
        content_type(HeaderView::Missing) == Ok::<Option<MediaType>, Seq<char>>(None),
        content_type(HeaderView::Unreadable) is Err,
{
    text::law_split_at_separators(media, ';', parameters);
    assert(text::split(media + seq![';'] + parameters, ';')[0] == media);
    reveal_strlit("application/json");
    reveal_strlit("application/octet-stream");
    assert("application/json"@.len() != "application/octet-stream"@.len());
}

/// A request for JSON is taken exactly where every type that it accepts is JSON or any,
/// and one that accepts nothing in particular is taken.
pub proof fn law_json_is_accepted(first: Seq<char>, rest: Seq<char>)
    requires
        !first.contains(','),
    ensures
        json_accept(HeaderView::Missing) is Ok,
        json_accept(HeaderView::Unreadable) is Err,
        json_accept(HeaderView::Text(first)) is Ok <==> text::trimmed(first)
            == "application/json"@ || text::trimmed(first) == "*/*"@,
        json_accept(HeaderView::Text(first + seq![','] + rest)) is Ok <==> json_accept(
            HeaderView::Text(first),
        ) is Ok && json_accept(HeaderView::Text(rest)) is Ok,
{
    lemma_accepted(first, rest);
    let one = accepted(first);
    let others = accepted(rest);
    let all = accepted(first + seq![','] + rest);
    assert(one =~= seq![text::trimmed(first)]);
    if all_take_json(all) {
        assert(takes_json(all[0]));
        assert forall|i: int| 0 <= i < others.len() implies takes_json(#[trigger] others[i]) by {
            assert(all[i + 1] == others[i]);
        }
        assert forall|i: int| 0 <= i < one.len() implies takes_json(#[trigger] one[i]) by {}
    }
    if all_take_json(one) && all_take_json(others) {
        assert(takes_json(one[0]));
        assert forall|i: int| 0 <= i < all.len() implies takes_json(#[trigger] all[i]) by {
            if i > 0 {
                assert(all[i] == others[i - 1]);
            }
        }
    }
    if takes_json(text::trimmed(first)) {
        assert(all_take_json(one));
    } else {
        assert(!takes_json(one[0]));
    }
}

proof fn lemma_accepted(first: Seq<char>, rest: Seq<char>)
    requires
        !first.contains(','),
    ensures
        accepted(first) == seq![text::trimmed(first)],
        accepted(first + seq![','] + rest) == seq![text::trimmed(first)] + accepted(rest),
{
    text::law_split_at_separators(first, ',', rest);
    assert(accepted(first) =~= seq![text::trimmed(first)]);
    assert(accepted(first + seq![','] + rest) =~= seq![text::trimmed(first)] + accepted(rest));
}

/// Messages are given as bytes exactly where some accepted type is that of bytes or any.
/// A type that is blank, has parameters or is none of the three is refused, wherever it
/// stands.
pub proof fn law_bytes_are_accepted(first: Seq<char>, rest: Seq<char>)
    requires
        !first.contains(','),
    ensures
        binary_accept(HeaderView::Missing) == Ok::<bool, Seq<char>>(false),
        binary_accept(HeaderView::Unreadable) is Err,
        binary_accept(HeaderView::Text(first)) == Ok::<bool, Seq<char>>(true)
            <==> text::trimmed(first) == "application/octet-stream"@ || text::trimmed(first)
            == "*/*"@,
        binary_accept(HeaderView::Text(first)) == Ok::<bool, Seq<char>>(false)
            <==> text::trimmed(first) == "application/json"@,
        binary_accept(HeaderView::Text(first + seq![','] + rest)) is Ok <==> binary_accept(
            HeaderView::Text(first),
        ) is Ok && binary_accept(HeaderView::Text(rest)) is Ok,
        binary_accept(HeaderView::Text(first + seq![','] + rest)) == Ok::<bool, Seq<char>>(true)
            ==> binary_accept(HeaderView::Text(first)) == Ok::<bool, Seq<char>>(true)
            || binary_accept(HeaderView::Text(rest)) == Ok::<bool, Seq<char>>(true),
        message_accept(HeaderView::Text(first)) is Ok <==> binary_accept(HeaderView::Text(first))
            == Ok::<bool, Seq<char>>(true),
{
    lemma_accepted(first, rest);
    let one = accepted(first);
    let others = accepted(rest);
    let all = accepted(first + seq![','] + rest);
    let part = text::trimmed(first);
    reveal_strlit("application/json");
    reveal_strlit("application/octet-stream");
    reveal_strlit("*/*");
    assert("application/json"@.len() == 16 && "application/octet-stream"@.len() == 24
        && "*/*"@.len() == 3);
    assert(one[0] == part);
    assert(all_plain(one) <==> is_plain_type(part));
    assert(all_known(one) <==> is_known_type(part));
    assert(some_take_binary(one) <==> takes_binary(part)) by {
        if takes_binary(part) {
            assert(takes_binary(one[0]));
        }
    }
    if is_known_type(part) {
        assert(!"application/json"@.contains(';'));
        assert(!"application/octet-stream"@.contains(';'));
        assert(!"*/*"@.contains(';'));
    }
    assert(all[0] == part);
    assert forall|i: int| 0 <= i < others.len() implies #[trigger] others[i] == all[i + 1] by {}
    assert forall|i: int| 0 < i < all.len() implies #[trigger] all[i] == others[i - 1] by {}
    assert(all_plain(all) <==> is_plain_type(part) && all_plain(others)) by {
        if all_plain(all) {
            assert(is_plain_type(all[0]));
            assert forall|i: int| 0 <= i < others.len() implies is_plain_type(
                #[trigger] others[i],
            ) by {
                assert(is_plain_type(all[i + 1]));
            }
        }
    }
    assert(all_known(all) <==> is_known_type(part) && all_known(others)) by {
        if all_known(all) {
            assert(is_known_type(all[0]));
            assert forall|i: int| 0 <= i < others.len() implies is_known_type(
                #[trigger] others[i],
            ) by {
                assert(is_known_type(all[i + 1]));
            }
        }
    }
    if some_take_binary(all) {
        let i = choose|i: int| 0 <= i < all.len() && takes_binary(#[trigger] all[i]);
        if i > 0 {
            assert(takes_binary(others[i - 1]));
        }
    }
}

/// A text fits where its bytes are no more than the limit, and a Base64 field gives the
/// bytes that it holds where both forms are within their limits. Nothing else is taken.
pub proof fn law_fields_are_bounded(
    value: Seq<char>,
    limit: usize,
    decoded_limit: usize,
    field: Seq<char>,
    bytes: Seq<u8>,
)
    ensures
        text_within(value, limit, field) is Ok <==> encode_utf8(value).len() <= limit,
        bounded_bytes(value, limit, decoded_limit, field) == Ok::<Seq<u8>, Seq<char>>(bytes)
            <==> encode_utf8(value).len() <= limit && primitives::base64_bytes(value) == Some(bytes)
            && bytes.len() <= decoded_limit,
{
}

/// An answer with messages is read as the messages that it was made of, one for one, and
/// in their order.
pub proof fn law_answer_is_read_as_the_messages(messages: Seq<ResponseView>)
    requires
        messages_answer(messages) is Some,
    ensures
        ({
            let read = protocol::messages_decoding(messages_answer(messages)->0);
            &&& read is Ok
            &&& read->Ok_0.len() == messages.len()
            &&& forall|i: int|
                #![trigger messages[i]]
                0 <= i < messages.len() ==> {
                    let message = read->Ok_0[i];
                    &&& message.server_id == messages[i].server_id
                    &&& message.sender == messages[i].sender
                    &&& message.sender_address == messages[i].sender_address
                    &&& message.message_id == messages[i].message_id
                    &&& message.accepted_at == messages[i].accepted_at
                    &&& message.expires_at == messages[i].expires_at
                    &&& primitives::base64_bytes(messages[i].ciphertext) == Some(message.ciphertext)
                }
        }),
{
    let plain = messages.map_values(|message: ResponseView| binary_form(message)->0);
    protocol::law_messages_round_trip(plain);
    assert forall|i: int|
        #![trigger messages[i]]
        0 <= i < messages.len() implies binary_form(messages[i]) is Some by {}
}

/// A message is taken only as bytes, and is the one that the bytes hold.
pub proof fn law_submission_is_read_from_bytes(header: HeaderView, body: Seq<u8>)
    ensures
        message_request(header, body) matches Ok(value) ==> {
            &&& content_type(header) == Ok::<Option<MediaType>, Seq<char>>(Some(MediaType::Binary))
            &&& protocol::submit_decoding(body) is Ok
            &&& protocol::submit_decoding(body)->Ok_0 == value
        },
        content_type(header) == Ok::<Option<MediaType>, Seq<char>>(Some(MediaType::Binary))
            && protocol::submit_decoding(body) is Ok ==> message_request(header, body) is Ok,
{
}

/// A field that is too long is named, with the number of bytes that it may have.
pub proof fn law_long_field_is_named(value: Seq<char>, limit: usize, field: Seq<char>)
    requires
        encode_utf8(value).len() > limit,
    ensures
        ({
            let digits = text::decimal(limit as nat);
            let middle = " exceeds maximum length of "@;
            &&& text_within(value, limit, field) matches Err(message)
            &&& bytes::stands_at(message, 0, field)
            &&& bytes::stands_at(message, field.len() as int, middle)
            &&& bytes::stands_at(message, field.len() as int + middle.len(), digits)
            &&& bytes::stands_at(
                message,
                field.len() as int + middle.len() + digits.len(),
                " bytes"@,
            )
            &&& message.len() == field.len() + middle.len() + digits.len() + " bytes"@.len()
        }),
{
    let message = too_long(limit, field);
    let digits = text::decimal(limit as nat);
    let middle = " exceeds maximum length of "@;
    let last = " bytes"@;
    let none = Seq::<char>::empty();
    assert(message =~= none + (field + (middle + (digits + last))));
    bytes::lemma_stands(message, none, field, middle + (digits + last));
    assert(message =~= field + (middle + (digits + last)));
    bytes::lemma_stands(message, field, middle, digits + last);
    assert(message =~= (field + middle) + (digits + last));
    bytes::lemma_stands(message, field + middle, digits, last);
    assert(message =~= (field + middle + digits) + (last + none));
    bytes::lemma_stands(message, field + middle + digits, last, none);
}

} // verus!
