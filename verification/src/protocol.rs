//! Versioned, bounded binary frames used by the relay message endpoints.
//!
//! Layout (all integers are big-endian):
//! version:u16 | schema:u16 | kind:u8 | payload.
//! A submit payload is recipient:string | message_id:string | expiry:flag |
//! [expires_at:u64] | ciphertext:bytes. A messages payload is count:u32 |
//! message*; each message is server_id:i64 | sender:string |
//! sender_address:optional-string | message_id:string | accepted_at:u64 |
//! expiry:flag | [expires_at:u64] | ciphertext:bytes.
//! Lengths are u32 byte lengths, strings are UTF-8, and flags are exactly 0 or
//! 1. Version/schema changes are incompatible and must be negotiated by the
//! media type/API capability before deployment.
use vstd::prelude::*;
use vstd::utf8::*;

use crate::bytes;
use crate::bytes::{copy_range, get_u32, get_u64, push_bytes, push_u32, push_u64};
use crate::text;
use crate::text::{decimal_text, utf8_string};

verus! {

pub const VERSION: u16 = 1;

pub const SCHEMA: u16 = 1;

pub const KIND_SUBMIT: u8 = 1;

pub const KIND_MESSAGES: u8 = 2;

pub const MAX_MESSAGES: usize = 100;

pub const MAX_BODY: usize = 16 * 1024 * 1024;

pub const MAX_RECIPIENT_BYTES: usize = 256;

pub const MAX_MESSAGE_ID_BYTES: usize = 256;

pub const MAX_ADDRESS_BYTES: usize = 256;

pub const MAX_CIPHERTEXT_BYTES: usize = MAX_BODY;

/// A variable-length part of a frame.
#[derive(Clone, Copy, Debug, PartialEq, Eq, Structural)]
pub enum Field {
    Recipient,
    MessageId,
    Sender,
    SenderAddress,
    Ciphertext,
}

/// What a frame ended in the middle of.
#[derive(Clone, Copy, Debug, PartialEq, Eq, Structural)]
pub enum Part {
    Byte,
    U32,
    U64,
    I64,
    Body(Field),
}

/// Why a frame could not be written or read.
#[derive(Clone, Copy, Debug, PartialEq, Eq, Structural)]
pub enum ProtocolError {
    FieldTooLong { field: Field, limit: usize },
    TooManyMessages,
    BodyTooLarge,
    TruncatedHeader,
    UnsupportedVersion,
    UnexpectedKind,
    Truncated(Part),
    NotUtf8(Field),
    UnknownExpirationFlag,
    UnknownSenderAddressFlag,
    TrailingBytes,
}

/// The name of a field in messages to the user.
pub open spec fn field_name(field: Field) -> Seq<char> {
    match field {
        Field::Recipient => "recipient"@,
        Field::MessageId => "message ID"@,
        Field::Sender => "sender"@,
        Field::SenderAddress => "sender address"@,
        Field::Ciphertext => "ciphertext"@,
    }
}

/// The name of a part in messages to the user.
pub open spec fn part_name(part: Part) -> Seq<char> {
    match part {
        Part::Byte => "binary field"@,
        Part::U32 => "binary u32"@,
        Part::U64 => "binary u64"@,
        Part::I64 => "binary i64"@,
        Part::Body(field) => field_name(field),
    }
}

/// What is said of an error.
pub open spec fn error_text(error: ProtocolError) -> Seq<char> {
    match error {
        ProtocolError::FieldTooLong { field, limit } => field_name(field)
            + " exceeds maximum length of "@ + text::decimal(limit as nat) + " bytes"@,
        ProtocolError::TooManyMessages => "too many messages"@,
        ProtocolError::BodyTooLarge => "binary relay body exceeds maximum size"@,
        ProtocolError::TruncatedHeader => "truncated binary relay header"@,
        ProtocolError::UnsupportedVersion => "unsupported binary relay version/schema"@,
        ProtocolError::UnexpectedKind => "unexpected binary relay frame kind"@,
        ProtocolError::Truncated(part) => "truncated "@ + part_name(part),
        ProtocolError::NotUtf8(field) => field_name(field) + " is not UTF-8"@,
        ProtocolError::UnknownExpirationFlag => "unknown expiration flag"@,
        ProtocolError::UnknownSenderAddressFlag => "unknown sender address flag"@,
        ProtocolError::TrailingBytes => "trailing bytes in binary relay frame"@,
    }
}

impl Field {
    fn text(self) -> (name: &'static str)
        ensures
            name@ == field_name(self),
    {
        match self {
            Field::Recipient => "recipient",
            Field::MessageId => "message ID",
            Field::Sender => "sender",
            Field::SenderAddress => "sender address",
            Field::Ciphertext => "ciphertext",
        }
    }
}

impl Part {
    fn text(self) -> (name: &'static str)
        ensures
            name@ == part_name(self),
    {
        match self {
            Part::Byte => "binary field",
            Part::U32 => "binary u32",
            Part::U64 => "binary u64",
            Part::I64 => "binary i64",
            Part::Body(field) => field.text(),
        }
    }
}

impl ProtocolError {
    /// What is said of the error.
    pub fn message(self) -> (message: String)
        ensures
            message@ == error_text(self),
    {
        match self {
            ProtocolError::FieldTooLong { field, limit } => {
                let mut message = field.text().to_owned();
                message.append(" exceeds maximum length of ");
                message.append(decimal_text(limit as u64).as_str());
                message.append(" bytes");
                message
            },
            ProtocolError::TooManyMessages => "too many messages".to_owned(),
            ProtocolError::BodyTooLarge => "binary relay body exceeds maximum size".to_owned(),
            ProtocolError::TruncatedHeader => "truncated binary relay header".to_owned(),
            ProtocolError::UnsupportedVersion => {
                "unsupported binary relay version/schema".to_owned()
            },
            ProtocolError::UnexpectedKind => "unexpected binary relay frame kind".to_owned(),
            ProtocolError::Truncated(part) => {
                let mut message = "truncated ".to_owned();
                message.append(part.text());
                message
            },
            ProtocolError::NotUtf8(field) => {
                let mut message = field.text().to_owned();
                message.append(" is not UTF-8");
                message
            },
            ProtocolError::UnknownExpirationFlag => "unknown expiration flag".to_owned(),
            ProtocolError::UnknownSenderAddressFlag => "unknown sender address flag".to_owned(),
            ProtocolError::TrailingBytes => "trailing bytes in binary relay frame".to_owned(),
        }
    }
}

/// A message on its way to the relay.
#[derive(Clone, Debug, PartialEq, Eq)]
pub struct Submit {
    pub recipient: String,
    pub message_id: String,
    pub expires_at: Option<u64>,
    pub ciphertext: Vec<u8>,
}

/// A message that the relay holds for a recipient.
#[derive(Clone, Debug, PartialEq, Eq)]
pub struct Message {
    pub server_id: i64,
    pub sender: String,
    pub sender_address: Option<String>,
    pub message_id: String,
    pub accepted_at: u64,
    pub expires_at: Option<u64>,
    pub ciphertext: Vec<u8>,
}

impl Submit {
    pub fn new(
        recipient: String,
        message_id: String,
        expires_at: Option<u64>,
        ciphertext: Vec<u8>,
    ) -> (submit: Submit)
        ensures
            submit@ == (SubmitView {
                recipient: recipient@,
                message_id: message_id@,
                expires_at,
                ciphertext: ciphertext@,
            }),
    {
        Submit { recipient, message_id, expires_at, ciphertext }
    }
}

impl Message {
    pub fn new(
        server_id: i64,
        sender: String,
        sender_address: Option<String>,
        message_id: String,
        accepted_at: u64,
        expires_at: Option<u64>,
        ciphertext: Vec<u8>,
    ) -> (message: Message)
        ensures
            message@ == (MessageView {
                server_id,
                sender: sender@,
                sender_address: optional_text(sender_address),
                message_id: message_id@,
                accepted_at,
                expires_at,
                ciphertext: ciphertext@,
            }),
    {
        Message {
            server_id,
            sender,
            sender_address,
            message_id,
            accepted_at,
            expires_at,
            ciphertext,
        }
    }
}

/// The contents of a [`Submit`].
#[verifier::ext_equal]
pub struct SubmitView {
    pub recipient: Seq<char>,
    pub message_id: Seq<char>,
    pub expires_at: Option<u64>,
    pub ciphertext: Seq<u8>,
}

/// The contents of a [`Message`].
#[verifier::ext_equal]
pub struct MessageView {
    pub server_id: i64,
    pub sender: Seq<char>,
    pub sender_address: Option<Seq<char>>,
    pub message_id: Seq<char>,
    pub accepted_at: u64,
    pub expires_at: Option<u64>,
    pub ciphertext: Seq<u8>,
}

/// The characters of an optional string.
pub open spec fn optional_text(value: Option<String>) -> Option<Seq<char>> {
    match value {
        Some(text) => Some(text@),
        None => None,
    }
}

impl View for Submit {
    type V = SubmitView;

    open spec fn view(&self) -> SubmitView {
        SubmitView {
            recipient: self.recipient@,
            message_id: self.message_id@,
            expires_at: self.expires_at,
            ciphertext: self.ciphertext@,
        }
    }
}

impl View for Message {
    type V = MessageView;

    open spec fn view(&self) -> MessageView {
        MessageView {
            server_id: self.server_id,
            sender: self.sender@,
            sender_address: optional_text(self.sender_address),
            message_id: self.message_id@,
            accepted_at: self.accepted_at,
            expires_at: self.expires_at,
            ciphertext: self.ciphertext@,
        }
    }
}

/// The contents of every message of a list.
pub open spec fn message_views(messages: Seq<Message>) -> Seq<MessageView> {
    messages.map_values(|message: Message| message@)
}

// ---------------------------------------------------------------------------
// The frame layout
// ---------------------------------------------------------------------------

/// The five bytes that open a frame of the given kind.
pub open spec fn header_bytes(kind: u8) -> Seq<u8> {
    seq![0u8, 1u8, 0u8, 1u8, kind]
}

/// A byte string with its length in front.
pub open spec fn field_bytes(value: Seq<u8>) -> Seq<u8> {
    bytes::be_u32(value.len() as u32) + value
}

/// A text with its byte length in front.
pub open spec fn text_bytes(value: Seq<char>) -> Seq<u8> {
    field_bytes(encode_utf8(value))
}

/// An optional expiration time.
pub open spec fn expiry_bytes(value: Option<u64>) -> Seq<u8> {
    match value {
        Some(time) => seq![1u8] + bytes::be_u64(time),
        None => seq![0u8],
    }
}

/// An optional sender address.
pub open spec fn address_bytes(value: Option<Seq<char>>) -> Seq<u8> {
    match value {
        Some(address) => seq![1u8] + text_bytes(address),
        None => seq![0u8],
    }
}

/// The frame of a submitted message.
pub open spec fn submit_frame(value: SubmitView) -> Seq<u8> {
    header_bytes(KIND_SUBMIT) + text_bytes(value.recipient) + text_bytes(value.message_id)
        + expiry_bytes(value.expires_at) + field_bytes(value.ciphertext)
}

/// One message inside a messages frame.
pub open spec fn message_bytes(value: MessageView) -> Seq<u8> {
    bytes::be_u64(value.server_id as u64) + text_bytes(value.sender) + address_bytes(value.sender_address)
        + text_bytes(value.message_id) + bytes::be_u64(value.accepted_at) + expiry_bytes(value.expires_at)
        + field_bytes(value.ciphertext)
}

/// All messages of a frame, one after the other.
pub open spec fn message_list_bytes(values: Seq<MessageView>) -> Seq<u8>
    decreases values.len(),
{
    if values.len() == 0 {
        Seq::empty()
    } else {
        message_list_bytes(values.drop_last()) + message_bytes(values.last())
    }
}

/// The frame of a list of messages.
pub open spec fn messages_frame(values: Seq<MessageView>) -> Seq<u8> {
    header_bytes(KIND_MESSAGES) + bytes::be_u32(values.len() as u32) + message_list_bytes(values)
}

// ---------------------------------------------------------------------------
// Which values have a frame
// ---------------------------------------------------------------------------

/// The error of a field of `length` bytes, if it is over its limit.
pub open spec fn field_error(length: nat, limit: usize, field: Field) -> Option<ProtocolError> {
    if length > limit {
        Some(ProtocolError::FieldTooLong { field, limit })
    } else {
        None
    }
}

/// The first of two errors.
pub open spec fn first_error(
    first: Option<ProtocolError>,
    second: Option<ProtocolError>,
) -> Option<ProtocolError> {
    if first is Some {
        first
    } else {
        second
    }
}

/// The first field of a submitted message that is over its limit.
pub open spec fn submit_error(value: SubmitView) -> Option<ProtocolError> {
    first_error(
        field_error(encode_utf8(value.recipient).len(), MAX_RECIPIENT_BYTES, Field::Recipient),
        first_error(
            field_error(
                encode_utf8(value.message_id).len(),
                MAX_MESSAGE_ID_BYTES,
                Field::MessageId,
            ),
            field_error(value.ciphertext.len(), MAX_CIPHERTEXT_BYTES, Field::Ciphertext),
        ),
    )
}

/// The first field of a message that is over its limit.
pub open spec fn message_error(value: MessageView) -> Option<ProtocolError> {
    first_error(
        field_error(encode_utf8(value.sender).len(), MAX_ADDRESS_BYTES, Field::Sender),
        first_error(
            match value.sender_address {
                Some(address) => field_error(
                    encode_utf8(address).len(),
                    MAX_ADDRESS_BYTES,
                    Field::SenderAddress,
                ),
                None => None,
            },
            first_error(
                field_error(
                    encode_utf8(value.message_id).len(),
                    MAX_MESSAGE_ID_BYTES,
                    Field::MessageId,
                ),
                field_error(value.ciphertext.len(), MAX_CIPHERTEXT_BYTES, Field::Ciphertext),
            ),
        ),
    )
}

/// The first error among the messages of a list.
pub open spec fn message_list_error(values: Seq<MessageView>) -> Option<ProtocolError>
    decreases values.len(),
{
    if values.len() == 0 {
        None
    } else {
        first_error(message_list_error(values.drop_last()), message_error(values.last()))
    }
}

/// What writing a submitted message gives: its frame, or the first limit that
/// it breaks.
pub open spec fn submit_encoding(value: SubmitView) -> Result<Seq<u8>, ProtocolError> {
    match submit_error(value) {
        Some(error) => Err(error),
        None => if submit_frame(value).len() > MAX_BODY {
            Err(ProtocolError::BodyTooLarge)
        } else {
            Ok(submit_frame(value))
        },
    }
}

/// What writing a list of messages gives: its frame, or the first limit that
/// it breaks.
pub open spec fn messages_encoding(values: Seq<MessageView>) -> Result<Seq<u8>, ProtocolError> {
    if values.len() > MAX_MESSAGES {
        Err(ProtocolError::TooManyMessages)
    } else {
        match message_list_error(values) {
            Some(error) => Err(error),
            None => if messages_frame(values).len() > MAX_BODY {
                Err(ProtocolError::BodyTooLarge)
            } else {
                Ok(messages_frame(values))
            },
        }
    }
}

// ---------------------------------------------------------------------------
// Reading
// ---------------------------------------------------------------------------

/// A value read from the front of some bytes, with the bytes behind it.
pub type Read<T> = Result<(T, Seq<u8>), ProtocolError>;

/// Takes `length` bytes from the front.
#[verifier::opaque]
pub open spec fn read_take(bytes: Seq<u8>, length: nat, part: Part) -> Read<Seq<u8>> {
    if bytes.len() < length {
        Err(ProtocolError::Truncated(part))
    } else {
        Ok((bytes.subrange(0, length as int), bytes.skip(length as int)))
    }
}

/// Reads one byte.
pub open spec fn read_u8(bytes: Seq<u8>) -> Read<u8> {
    match read_take(bytes, 1, Part::Byte) {
        Ok((taken, rest)) => Ok((taken[0], rest)),
        Err(error) => Err(error),
    }
}

/// Reads a four-byte integer.
pub open spec fn read_u32(bytes: Seq<u8>) -> Read<u32> {
    match read_take(bytes, 4, Part::U32) {
        Ok((taken, rest)) => Ok((bytes::be_u32_value(taken), rest)),
        Err(error) => Err(error),
    }
}

/// Reads an eight-byte integer.
pub open spec fn read_u64(bytes: Seq<u8>) -> Read<u64> {
    match read_take(bytes, 8, Part::U64) {
        Ok((taken, rest)) => Ok((bytes::be_u64_value(taken), rest)),
        Err(error) => Err(error),
    }
}

/// Reads an eight-byte signed integer.
pub open spec fn read_i64(bytes: Seq<u8>) -> Read<i64> {
    match read_take(bytes, 8, Part::I64) {
        Ok((taken, rest)) => Ok((bytes::be_u64_value(taken) as i64, rest)),
        Err(error) => Err(error),
    }
}

/// Reads a byte string of at most `limit` bytes.
pub open spec fn read_bytes(bytes: Seq<u8>, limit: usize, field: Field) -> Read<Seq<u8>> {
    match read_u32(bytes) {
        Ok((length, rest)) => if length > limit {
            Err(ProtocolError::FieldTooLong { field, limit })
        } else {
            read_take(rest, length as nat, Part::Body(field))
        },
        Err(error) => Err(error),
    }
}

/// Reads a text of at most `limit` bytes.
pub open spec fn read_string(bytes: Seq<u8>, limit: usize, field: Field) -> Read<Seq<char>> {
    match read_bytes(bytes, limit, field) {
        Ok((value, rest)) => if valid_utf8(value) {
            Ok((decode_utf8(value), rest))
        } else {
            Err(ProtocolError::NotUtf8(field))
        },
        Err(error) => Err(error),
    }
}

/// Reads an optional expiration time.
pub open spec fn read_expiry(bytes: Seq<u8>) -> Read<Option<u64>> {
    match read_u8(bytes) {
        Ok((flag, rest)) => if flag == 0 {
            Ok((None, rest))
        } else if flag == 1 {
            match read_u64(rest) {
                Ok((time, rest)) => Ok((Some(time), rest)),
                Err(error) => Err(error),
            }
        } else {
            Err(ProtocolError::UnknownExpirationFlag)
        },
        Err(error) => Err(error),
    }
}

/// Reads an optional sender address.
pub open spec fn read_address(bytes: Seq<u8>) -> Read<Option<Seq<char>>> {
    match read_u8(bytes) {
        Ok((flag, rest)) => if flag == 0 {
            Ok((None, rest))
        } else if flag == 1 {
            match read_string(rest, MAX_ADDRESS_BYTES, Field::SenderAddress) {
                Ok((address, rest)) => Ok((Some(address), rest)),
                Err(error) => Err(error),
            }
        } else {
            Err(ProtocolError::UnknownSenderAddressFlag)
        },
        Err(error) => Err(error),
    }
}

/// Reads the header of a frame of the given kind.
pub open spec fn read_header(bytes: Seq<u8>, kind: u8) -> Result<Seq<u8>, ProtocolError> {
    if bytes.len() > MAX_BODY {
        Err(ProtocolError::BodyTooLarge)
    } else if bytes.len() < 5 {
        Err(ProtocolError::TruncatedHeader)
    } else if bytes.subrange(0, 4) != seq![0u8, 1u8, 0u8, 1u8] {
        Err(ProtocolError::UnsupportedVersion)
    } else if bytes[4] != kind {
        Err(ProtocolError::UnexpectedKind)
    } else {
        Ok(bytes.skip(5))
    }
}

/// Reads the parts of a message that say who sent it.
pub open spec fn read_origin(bytes: Seq<u8>) -> Read<(i64, Seq<char>, Option<Seq<char>>)> {
    match read_i64(bytes) {
        Err(error) => Err(error),
        Ok((server_id, rest)) => match read_string(rest, MAX_ADDRESS_BYTES, Field::Sender) {
            Err(error) => Err(error),
            Ok((sender, rest)) => match read_address(rest) {
                Err(error) => Err(error),
                Ok((sender_address, rest)) => Ok(((server_id, sender, sender_address), rest)),
            },
        },
    }
}

/// Reads the parts of a message behind its origin.
pub open spec fn read_content(bytes: Seq<u8>) -> Read<(Seq<char>, u64, Option<u64>, Seq<u8>)> {
    match read_string(bytes, MAX_MESSAGE_ID_BYTES, Field::MessageId) {
        Err(error) => Err(error),
        Ok((message_id, rest)) => match read_u64(rest) {
            Err(error) => Err(error),
            Ok((accepted_at, rest)) => match read_expiry(rest) {
                Err(error) => Err(error),
                Ok((expires_at, rest)) => match read_bytes(
                    rest,
                    MAX_CIPHERTEXT_BYTES,
                    Field::Ciphertext,
                ) {
                    Err(error) => Err(error),
                    Ok((ciphertext, rest)) => Ok(
                        ((message_id, accepted_at, expires_at, ciphertext), rest),
                    ),
                },
            },
        },
    }
}

/// Reads one message.
pub open spec fn read_message(bytes: Seq<u8>) -> Read<MessageView> {
    match read_origin(bytes) {
        Err(error) => Err(error),
        Ok(((server_id, sender, sender_address), rest)) => match read_content(rest) {
            Err(error) => Err(error),
            Ok(((message_id, accepted_at, expires_at, ciphertext), rest)) => Ok(
                (
                    MessageView {
                        server_id,
                        sender,
                        sender_address,
                        message_id,
                        accepted_at,
                        expires_at,
                        ciphertext,
                    },
                    rest,
                ),
            ),
        },
    }
}

/// Reads `count` messages.
pub open spec fn read_message_list(bytes: Seq<u8>, count: nat) -> Read<Seq<MessageView>>
    decreases count,
{
    if count == 0 {
        Ok((Seq::empty(), bytes))
    } else {
        match read_message_list(bytes, (count - 1) as nat) {
            Err(error) => Err(error),
            Ok((values, rest)) => match read_message(rest) {
                Err(error) => Err(error),
                Ok((value, rest)) => Ok((values.push(value), rest)),
            },
        }
    }
}

/// What reading a submit frame gives.
pub open spec fn submit_decoding(input: Seq<u8>) -> Result<SubmitView, ProtocolError> {
    match read_header(input, KIND_SUBMIT) {
        Err(error) => Err(error),
        Ok(rest) => match read_string(rest, MAX_RECIPIENT_BYTES, Field::Recipient) {
            Err(error) => Err(error),
            Ok((recipient, rest)) => match read_string(
                rest,
                MAX_MESSAGE_ID_BYTES,
                Field::MessageId,
            ) {
                Err(error) => Err(error),
                Ok((message_id, rest)) => match read_expiry(rest) {
                    Err(error) => Err(error),
                    Ok((expires_at, rest)) => match read_bytes(
                        rest,
                        MAX_CIPHERTEXT_BYTES,
                        Field::Ciphertext,
                    ) {
                        Err(error) => Err(error),
                        Ok((ciphertext, rest)) => if rest.len() != 0 {
                            Err(ProtocolError::TrailingBytes)
                        } else {
                            Ok(SubmitView { recipient, message_id, expires_at, ciphertext })
                        },
                    },
                },
            },
        },
    }
}

/// What reading a messages frame gives.
pub open spec fn messages_decoding(input: Seq<u8>) -> Result<Seq<MessageView>, ProtocolError> {
    match read_header(input, KIND_MESSAGES) {
        Err(error) => Err(error),
        Ok(rest) => match read_u32(rest) {
            Err(error) => Err(error),
            Ok((count, rest)) => if count > MAX_MESSAGES {
                Err(ProtocolError::TooManyMessages)
            } else {
                match read_message_list(rest, count as nat) {
                    Err(error) => Err(error),
                    Ok((values, rest)) => if rest.len() != 0 {
                        Err(ProtocolError::TrailingBytes)
                    } else {
                        Ok(values)
                    },
                }
            },
        },
    }
}

// ---------------------------------------------------------------------------
// Writing frames
// ---------------------------------------------------------------------------

/// Appends the header of a frame.
fn header(kind: u8, output: &mut Vec<u8>)
    ensures
        final(output)@ == old(output)@ + header_bytes(kind),
{
    output.push((VERSION / 0x100) as u8);
    output.push((VERSION % 0x100) as u8);
    output.push((SCHEMA / 0x100) as u8);
    output.push((SCHEMA % 0x100) as u8);
    output.push(kind);
    assert(output@ =~= old(output)@ + header_bytes(kind));
}

/// Appends a byte string that is not over its limit.
fn put_bytes(output: &mut Vec<u8>, value: &[u8], limit: usize, field: Field) -> (result: Result<
    (),
    ProtocolError,
>)
    requires
        limit <= u32::MAX,
    ensures
        match field_error(value@.len(), limit, field) {
            Some(error) => result == Err::<(), ProtocolError>(error),
            None => result is Ok && final(output)@ == old(output)@ + field_bytes(value@),
        },
{
    if value.len() > limit {
        return Err(ProtocolError::FieldTooLong { field, limit });
    }
    push_u32(output, value.len() as u32);
    push_bytes(output, value);
    assert(output@ =~= old(output)@ + field_bytes(value@));
    Ok(())
}

/// Appends a text that is not over its limit.
fn put_string(output: &mut Vec<u8>, value: &str, limit: usize, field: Field) -> (result: Result<
    (),
    ProtocolError,
>)
    requires
        limit <= u32::MAX,
    ensures
        match field_error(encode_utf8(value@).len(), limit, field) {
            Some(error) => result == Err::<(), ProtocolError>(error),
            None => result is Ok && final(output)@ == old(output)@ + text_bytes(value@),
        },
{
    put_bytes(output, value.as_bytes(), limit, field)
}

/// Appends an optional expiration time.
fn put_expiry(output: &mut Vec<u8>, value: Option<u64>)
    ensures
        final(output)@ == old(output)@ + expiry_bytes(value),
{
    match value {
        Some(time) => {
            output.push(1);
            push_u64(output, time);
        },
        None => output.push(0),
    }
    assert(output@ =~= old(output)@ + expiry_bytes(value));
}

/// Rejects a frame that is larger than a relay body may be.
fn check_body(output: &[u8]) -> (result: Result<(), ProtocolError>)
    ensures
        result == (if output@.len() > MAX_BODY {
            Err::<(), ProtocolError>(ProtocolError::BodyTooLarge)
        } else {
            Ok(())
        }),
{
    if output.len() > MAX_BODY {
        return Err(ProtocolError::BodyTooLarge);
    }
    Ok(())
}

/// Writes a message for the relay.
pub fn encode_submit(value: &Submit) -> (result: Result<Vec<u8>, ProtocolError>)
    ensures
        match submit_encoding(value@) {
            Ok(frame) => result matches Ok(output) && output@ == frame,
            Err(error) => result == Err::<Vec<u8>, ProtocolError>(error),
        },
{
    let mut output: Vec<u8> = Vec::new();
    header(KIND_SUBMIT, &mut output);
    if let Err(error) = put_string(
        &mut output,
        value.recipient.as_str(),
        MAX_RECIPIENT_BYTES,
        Field::Recipient,
    ) {
        return Err(error);
    }
    if let Err(error) = put_string(
        &mut output,
        value.message_id.as_str(),
        MAX_MESSAGE_ID_BYTES,
        Field::MessageId,
    ) {
        return Err(error);
    }
    put_expiry(&mut output, value.expires_at);
    if let Err(error) = put_bytes(
        &mut output,
        value.ciphertext.as_slice(),
        MAX_CIPHERTEXT_BYTES,
        Field::Ciphertext,
    ) {
        return Err(error);
    }
    assert(output@ =~= submit_frame(value@));
    if let Err(error) = check_body(output.as_slice()) {
        return Err(error);
    }
    Ok(output)
}

/// Appends one message.
fn put_message(output: &mut Vec<u8>, message: &Message) -> (result: Result<(), ProtocolError>)
    ensures
        match message_error(message@) {
            Some(error) => result == Err::<(), ProtocolError>(error),
            None => result is Ok && final(output)@ == old(output)@ + message_bytes(message@),
        },
{
    let ghost before = output@;
    push_u64(output, message.server_id as u64);
    if let Err(error) = put_string(
        output,
        message.sender.as_str(),
        MAX_ADDRESS_BYTES,
        Field::Sender,
    ) {
        return Err(error);
    }
    match &message.sender_address {
        Some(address) => {
            output.push(1);
            if let Err(error) = put_string(
                output,
                address.as_str(),
                MAX_ADDRESS_BYTES,
                Field::SenderAddress,
            ) {
                return Err(error);
            }
        },
        None => output.push(0),
    }
    if let Err(error) = put_string(
        output,
        message.message_id.as_str(),
        MAX_MESSAGE_ID_BYTES,
        Field::MessageId,
    ) {
        return Err(error);
    }
    push_u64(output, message.accepted_at);
    put_expiry(output, message.expires_at);
    if let Err(error) = put_bytes(
        output,
        message.ciphertext.as_slice(),
        MAX_CIPHERTEXT_BYTES,
        Field::Ciphertext,
    ) {
        return Err(error);
    }
    assert(output@ =~= before + message_bytes(message@));
    Ok(())
}

/// Once a list holds a message over its limits, every longer list fails in the
/// same way.
proof fn lemma_message_list_error_prefix(values: Seq<MessageView>, count: int)
    requires
        0 <= count <= values.len(),
        message_list_error(values.take(count)) is Some,
    ensures
        message_list_error(values) == message_list_error(values.take(count)),
    decreases values.len() - count,
{
    if count == values.len() {
        assert(values.take(count) =~= values);
    } else {
        assert(values.take(count + 1).drop_last() =~= values.take(count));
        lemma_message_list_error_prefix(values, count + 1);
    }
}

/// Writes the messages that the relay hands to a recipient.
pub fn encode_messages(messages: &[Message]) -> (result: Result<Vec<u8>, ProtocolError>)
    ensures
        match messages_encoding(message_views(messages@)) {
            Ok(frame) => result matches Ok(output) && output@ == frame,
            Err(error) => result == Err::<Vec<u8>, ProtocolError>(error),
        },
{
    let ghost values = message_views(messages@);
    if messages.len() > MAX_MESSAGES {
        return Err(ProtocolError::TooManyMessages);
    }
    let mut output: Vec<u8> = Vec::new();
    header(KIND_MESSAGES, &mut output);
    push_u32(&mut output, messages.len() as u32);
    let ghost opening = output@;
    let mut index: usize = 0;
    assert(values.take(0) =~= Seq::empty());
    assert(output@ =~= opening + message_list_bytes(values.take(0)));
    while index < messages.len()
        invariant
            index <= messages@.len(),
            messages@.len() <= MAX_MESSAGES,
            values == message_views(messages@),
            message_list_error(values.take(index as int)) is None,
            output@ == opening + message_list_bytes(values.take(index as int)),
        decreases messages@.len() - index,
    {
        let ghost before = output@;
        proof {
            assert(values.take(index + 1).drop_last() =~= values.take(index as int));
            assert(values.take(index + 1).last() == messages@[index as int]@);
        }
        if let Err(error) = put_message(&mut output, &messages[index]) {
            proof {
                lemma_message_list_error_prefix(values, index + 1);
            }
            return Err(error);
        }
        assert(output@ =~= opening + message_list_bytes(values.take(index + 1)));
        index += 1;
    }
    assert(values.take(index as int) =~= values);
    assert(output@ =~= messages_frame(values));
    if let Err(error) = check_body(output.as_slice()) {
        return Err(error);
    }
    Ok(output)
}

// ---------------------------------------------------------------------------
// Reading frames
// ---------------------------------------------------------------------------

/// A position in a frame.
struct Reader<'a> {
    input: &'a [u8],
    offset: usize,
}

impl<'a> Reader<'a> {
    /// The position lies inside the frame.
    spec fn wf(self) -> bool {
        self.offset <= self.input@.len() <= MAX_BODY
    }

    /// The bytes that are still to be read.
    spec fn rest(self) -> Seq<u8> {
        self.input@.skip(self.offset as int)
    }

    /// Opens a frame of the given kind.
    fn new(input: &'a [u8], kind: u8) -> (result: Result<Reader<'a>, ProtocolError>)
        ensures
            match read_header(input@, kind) {
                Ok(rest) => result matches Ok(reader) && reader.wf() && reader.rest() == rest,
                Err(error) => result == Err::<Reader<'a>, ProtocolError>(error),
            },
    {
        if input.len() > MAX_BODY {
            return Err(ProtocolError::BodyTooLarge);
        }
        let header_len: usize = 5;
        if input.len() < header_len {
            return Err(ProtocolError::TruncatedHeader);
        }
        let version: u16 = input[0] as u16 * 0x100 + input[1] as u16;
        let schema: u16 = input[2] as u16 * 0x100 + input[3] as u16;
        if version != VERSION || schema != SCHEMA {
            assert(input@.subrange(0, 4)[0] == input@[0]);
            assert(input@.subrange(0, 4)[1] == input@[1]);
            assert(input@.subrange(0, 4)[2] == input@[2]);
            assert(input@.subrange(0, 4)[3] == input@[3]);
            return Err(ProtocolError::UnsupportedVersion);
        }
        assert(input@.subrange(0, 4) =~= seq![0u8, 1u8, 0u8, 1u8]);
        if input[4] != kind {
            return Err(ProtocolError::UnexpectedKind);
        }
        Ok(Reader { input, offset: header_len })
    }

    /// Moves over `length` bytes and gives the position in front of them.
    fn take(&mut self, length: usize, part: Part) -> (result: Result<usize, ProtocolError>)
        requires
            old(self).wf(),
        ensures
            final(self).wf(),
            final(self).input == old(self).input,
            match read_take(old(self).rest(), length as nat, part) {
                Ok((taken, rest)) => {
                    &&& result matches Ok(start)
                    &&& start == old(self).offset
                    &&& start + length == final(self).offset
                    &&& taken == old(self).input@.subrange(start as int, start + length)
                    &&& final(self).rest() == rest
                },
                Err(error) => result == Err::<usize, ProtocolError>(error),
            },
    {
        reveal(read_take);
        let start: usize = self.offset;
        if self.input.len() - start < length {
            return Err(ProtocolError::Truncated(part));
        }
        self.offset = start + length;
        assert(old(self).rest().subrange(0, length as int) =~= self.input@.subrange(
            start as int,
            start + length,
        ));
        assert(old(self).rest().skip(length as int) =~= self.rest());
        Ok(start)
    }

    fn u8(&mut self) -> (result: Result<u8, ProtocolError>)
        requires
            old(self).wf(),
        ensures
            final(self).wf(),
            final(self).input == old(self).input,
            match read_u8(old(self).rest()) {
                Ok((value, rest)) => result == Ok::<u8, ProtocolError>(value)
                    && final(self).rest() == rest,
                Err(error) => result == Err::<u8, ProtocolError>(error),
            },
    {
        match self.take(1, Part::Byte) {
            Ok(start) => Ok(self.input[start]),
            Err(error) => Err(error),
        }
    }

    fn u32(&mut self) -> (result: Result<u32, ProtocolError>)
        requires
            old(self).wf(),
        ensures
            final(self).wf(),
            final(self).input == old(self).input,
            match read_u32(old(self).rest()) {
                Ok((value, rest)) => result == Ok::<u32, ProtocolError>(value)
                    && final(self).rest() == rest,
                Err(error) => result == Err::<u32, ProtocolError>(error),
            },
    {
        match self.take(4, Part::U32) {
            Ok(start) => Ok(get_u32(self.input, start)),
            Err(error) => Err(error),
        }
    }

    fn u64(&mut self) -> (result: Result<u64, ProtocolError>)
        requires
            old(self).wf(),
        ensures
            final(self).wf(),
            final(self).input == old(self).input,
            match read_u64(old(self).rest()) {
                Ok((value, rest)) => result == Ok::<u64, ProtocolError>(value)
                    && final(self).rest() == rest,
                Err(error) => result == Err::<u64, ProtocolError>(error),
            },
    {
        match self.take(8, Part::U64) {
            Ok(start) => Ok(get_u64(self.input, start)),
            Err(error) => Err(error),
        }
    }

    fn i64(&mut self) -> (result: Result<i64, ProtocolError>)
        requires
            old(self).wf(),
        ensures
            final(self).wf(),
            final(self).input == old(self).input,
            match read_i64(old(self).rest()) {
                Ok((value, rest)) => result == Ok::<i64, ProtocolError>(value)
                    && final(self).rest() == rest,
                Err(error) => result == Err::<i64, ProtocolError>(error),
            },
    {
        match self.take(8, Part::I64) {
            Ok(start) => Ok(get_u64(self.input, start) as i64),
            Err(error) => Err(error),
        }
    }

    fn bytes(&mut self, limit: usize, field: Field) -> (result: Result<Vec<u8>, ProtocolError>)
        requires
            old(self).wf(),
            limit <= u32::MAX,
        ensures
            final(self).wf(),
            final(self).input == old(self).input,
            match read_bytes(old(self).rest(), limit, field) {
                Ok((value, rest)) => result matches Ok(copy) && copy@ == value
                    && final(self).rest() == rest,
                Err(error) => result == Err::<Vec<u8>, ProtocolError>(error),
            },
    {
        let length: u32 = match self.u32() {
            Ok(length) => length,
            Err(error) => {
                return Err(error);
            },
        };
        if length as u64 > limit as u64 {
            return Err(ProtocolError::FieldTooLong { field, limit });
        }
        match self.take(length as usize, Part::Body(field)) {
            Ok(start) => Ok(copy_range(self.input, start, start + length as usize)),
            Err(error) => Err(error),
        }
    }

    fn string(&mut self, limit: usize, field: Field) -> (result: Result<String, ProtocolError>)
        requires
            old(self).wf(),
            limit <= u32::MAX,
        ensures
            final(self).wf(),
            final(self).input == old(self).input,
            match read_string(old(self).rest(), limit, field) {
                Ok((value, rest)) => result matches Ok(text) && text@ == value
                    && final(self).rest() == rest,
                Err(error) => result == Err::<String, ProtocolError>(error),
            },
    {
        match self.bytes(limit, field) {
            Ok(bytes) => match utf8_string(bytes) {
                Some(text) => Ok(text),
                None => Err(ProtocolError::NotUtf8(field)),
            },
            Err(error) => Err(error),
        }
    }

    fn expiry(&mut self) -> (result: Result<Option<u64>, ProtocolError>)
        requires
            old(self).wf(),
        ensures
            final(self).wf(),
            final(self).input == old(self).input,
            match read_expiry(old(self).rest()) {
                Ok((value, rest)) => result == Ok::<Option<u64>, ProtocolError>(value)
                    && final(self).rest() == rest,
                Err(error) => result == Err::<Option<u64>, ProtocolError>(error),
            },
    {
        match self.u8() {
            Ok(0) => Ok(None),
            Ok(1) => match self.u64() {
                Ok(time) => Ok(Some(time)),
                Err(error) => Err(error),
            },
            Ok(_) => Err(ProtocolError::UnknownExpirationFlag),
            Err(error) => Err(error),
        }
    }

    fn address(&mut self) -> (result: Result<Option<String>, ProtocolError>)
        requires
            old(self).wf(),
        ensures
            final(self).wf(),
            final(self).input == old(self).input,
            match read_address(old(self).rest()) {
                Ok((value, rest)) => result matches Ok(address) && optional_text(address) == value
                    && final(self).rest() == rest,
                Err(error) => result == Err::<Option<String>, ProtocolError>(error),
            },
    {
        match self.u8() {
            Ok(0) => Ok(None),
            Ok(1) => match self.string(MAX_ADDRESS_BYTES, Field::SenderAddress) {
                Ok(address) => Ok(Some(address)),
                Err(error) => Err(error),
            },
            Ok(_) => Err(ProtocolError::UnknownSenderAddressFlag),
            Err(error) => Err(error),
        }
    }

    fn message(&mut self) -> (result: Result<Message, ProtocolError>)
        requires
            old(self).wf(),
        ensures
            final(self).wf(),
            final(self).input == old(self).input,
            match read_message(old(self).rest()) {
                Ok((value, rest)) => result matches Ok(message) && message@ == value
                    && final(self).rest() == rest,
                Err(error) => result == Err::<Message, ProtocolError>(error),
            },
    {
        let server_id: i64 = self.i64()?;
        let sender = self.string(MAX_ADDRESS_BYTES, Field::Sender)?;
        let sender_address = self.address()?;
        let message_id = self.string(MAX_MESSAGE_ID_BYTES, Field::MessageId)?;
        let accepted_at: u64 = self.u64()?;
        let expires_at: Option<u64> = self.expiry()?;
        let ciphertext = self.bytes(MAX_CIPHERTEXT_BYTES, Field::Ciphertext)?;
        Ok(
            Message {
                server_id,
                sender,
                sender_address,
                message_id,
                accepted_at,
                expires_at,
                ciphertext,
            },
        )
    }

    /// Rejects bytes behind the end of the payload.
    fn finish(&self) -> (result: Result<(), ProtocolError>)
        requires
            self.wf(),
        ensures
            result == (if self.rest().len() != 0 {
                Err::<(), ProtocolError>(ProtocolError::TrailingBytes)
            } else {
                Ok(())
            }),
    {
        if self.offset != self.input.len() {
            return Err(ProtocolError::TrailingBytes);
        }
        Ok(())
    }
}

/// Reads a message for the relay.
pub fn decode_submit(input: &[u8]) -> (result: Result<Submit, ProtocolError>)
    ensures
        match submit_decoding(input@) {
            Ok(value) => result matches Ok(submit) && submit@ == value,
            Err(error) => result == Err::<Submit, ProtocolError>(error),
        },
{
    let mut reader = Reader::new(input, KIND_SUBMIT)?;
    let recipient = reader.string(MAX_RECIPIENT_BYTES, Field::Recipient)?;
    let message_id = reader.string(MAX_MESSAGE_ID_BYTES, Field::MessageId)?;
    let expires_at: Option<u64> = reader.expiry()?;
    let ciphertext = reader.bytes(MAX_CIPHERTEXT_BYTES, Field::Ciphertext)?;
    reader.finish()?;
    Ok(Submit { recipient, message_id, expires_at, ciphertext })
}

/// Once reading a list fails, reading a longer list fails in the same way.
proof fn lemma_read_message_list_error(bytes: Seq<u8>, short: nat, long: nat)
    requires
        short <= long,
        read_message_list(bytes, short) is Err,
    ensures
        read_message_list(bytes, long) is Err,
        read_message_list(bytes, long)->Err_0 == read_message_list(bytes, short)->Err_0,
    decreases long - short,
{
    if short < long {
        lemma_read_message_list_error(bytes, short, (long - 1) as nat);
    }
}

/// Reads the messages that the relay hands to a recipient.
pub fn decode_messages(input: &[u8]) -> (result: Result<Vec<Message>, ProtocolError>)
    ensures
        match messages_decoding(input@) {
            Ok(values) => result matches Ok(messages) && message_views(messages@) == values,
            Err(error) => result == Err::<Vec<Message>, ProtocolError>(error),
        },
{
    let mut reader = Reader::new(input, KIND_MESSAGES)?;
    let count: u32 = reader.u32()?;
    if count > MAX_MESSAGES as u32 {
        return Err(ProtocolError::TooManyMessages);
    }
    let ghost start = reader.rest();
    let mut messages: Vec<Message> = Vec::with_capacity(count as usize);
    let mut index: u32 = 0;
    assert(message_views(messages@) =~= Seq::empty());
    while index < count
        invariant
            index <= count <= MAX_MESSAGES,
            reader.wf(),
            read_message_list(start, index as nat) == Ok::<
                (Seq<MessageView>, Seq<u8>),
                ProtocolError,
            >((message_views(messages@), reader.rest())),
            read_header(input@, KIND_MESSAGES) is Ok,
            read_u32(read_header(input@, KIND_MESSAGES)->Ok_0) == Ok::<
                (u32, Seq<u8>),
                ProtocolError,
            >((count, start)),
        decreases count - index,
    {
        match reader.message() {
            Ok(message) => {
                let ghost before = messages@;
                messages.push(message);
                assert(message_views(messages@) =~= message_views(before).push(message@));
            },
            Err(error) => {
                proof {
                    lemma_read_message_list_error(start, (index + 1) as nat, count as nat);
                }
                return Err(error);
            },
        }
        index += 1;
    }
    reader.finish()?;
    Ok(messages)
}

// ---------------------------------------------------------------------------
// Reading undoes writing, and writing undoes reading
// ---------------------------------------------------------------------------

/// Three pieces may be joined from either end.
proof fn lemma_join3(a: Seq<u8>, b: Seq<u8>, c: Seq<u8>)
    ensures
        a + b + c == a + (b + c),
{
    assert(a + b + c =~= a + (b + c));
}

/// Five pieces may be joined from either end.
proof fn lemma_join5(a: Seq<u8>, b: Seq<u8>, c: Seq<u8>, d: Seq<u8>, e: Seq<u8>)
    ensures
        a + b + c + d + e == a + (b + (c + (d + e))),
{
    assert(a + b + c + d + e =~= a + (b + (c + (d + e))));
}

/// Eight pieces may be joined from either end.
proof fn lemma_join8(
    a: Seq<u8>,
    b: Seq<u8>,
    c: Seq<u8>,
    d: Seq<u8>,
    e: Seq<u8>,
    f: Seq<u8>,
    g: Seq<u8>,
    h: Seq<u8>,
)
    ensures
        a + b + c + d + e + f + g + h == a + (b + (c + (d + (e + (f + (g + h)))))),
{
    assert(a + b + c + d + e + f + g + h =~= a + (b + (c + (d + (e + (f + (g + h)))))));
}

/// Nothing is added by an empty piece.
proof fn lemma_join_empty(a: Seq<u8>)
    ensures
        a + Seq::<u8>::empty() == a,
{
    assert(a + Seq::<u8>::empty() =~= a);
}

/// A taken prefix and its rest make up the bytes that were read.
proof fn lemma_take(front: Seq<u8>, rest: Seq<u8>, part: Part)
    ensures
        read_take(front + rest, front.len(), part) == Ok::<(Seq<u8>, Seq<u8>), ProtocolError>(
            (front, rest),
        ),
{
    reveal(read_take);
    assert((front + rest).subrange(0, front.len() as int) =~= front);
    assert((front + rest).skip(front.len() as int) =~= rest);
}

proof fn lemma_taken(input: Seq<u8>, length: nat, part: Part)
    requires
        read_take(input, length, part) is Ok,
    ensures
        ({
            let (taken, rest) = read_take(input, length, part)->Ok_0;
            taken.len() == length && input == taken + rest
        }),
{
    reveal(read_take);
    let (taken, rest) = read_take(input, length, part)->Ok_0;
    assert(input =~= taken + rest);
}

proof fn lemma_read_u32(value: u32, rest: Seq<u8>)
    ensures
        read_u32(bytes::be_u32(value) + rest) == Ok::<(u32, Seq<u8>), ProtocolError>((value, rest)),
{
    bytes::lemma_be_u32(value);
    lemma_take(bytes::be_u32(value), rest, Part::U32);
}

proof fn lemma_read_u32_back(input: Seq<u8>)
    requires
        read_u32(input) is Ok,
    ensures
        input == bytes::be_u32(read_u32(input)->Ok_0.0) + read_u32(input)->Ok_0.1,
{
    lemma_taken(input, 4, Part::U32);
    bytes::lemma_be_u32_value(input.subrange(0, 4));
}

proof fn lemma_read_u64(value: u64, rest: Seq<u8>)
    ensures
        read_u64(bytes::be_u64(value) + rest) == Ok::<(u64, Seq<u8>), ProtocolError>((value, rest)),
{
    bytes::lemma_be_u64(value);
    lemma_take(bytes::be_u64(value), rest, Part::U64);
}

proof fn lemma_read_u64_back(input: Seq<u8>)
    requires
        read_u64(input) is Ok,
    ensures
        input == bytes::be_u64(read_u64(input)->Ok_0.0) + read_u64(input)->Ok_0.1,
{
    lemma_taken(input, 8, Part::U64);
    bytes::lemma_be_u64_value(input.subrange(0, 8));
}

proof fn lemma_read_i64(value: i64, rest: Seq<u8>)
    ensures
        read_i64(bytes::be_u64(value as u64) + rest) == Ok::<(i64, Seq<u8>), ProtocolError>(
            (value, rest),
        ),
{
    bytes::lemma_be_u64(value as u64);
    bytes::lemma_i64_bits(value);
    lemma_take(bytes::be_u64(value as u64), rest, Part::I64);
}

proof fn lemma_read_i64_back(input: Seq<u8>)
    requires
        read_i64(input) is Ok,
    ensures
        input == bytes::be_u64(read_i64(input)->Ok_0.0 as u64) + read_i64(input)->Ok_0.1,
{
    lemma_taken(input, 8, Part::I64);
    bytes::lemma_be_u64_value(input.subrange(0, 8));
    bytes::lemma_u64_bits(bytes::be_u64_value(input.subrange(0, 8)));
}

proof fn lemma_read_bytes(value: Seq<u8>, rest: Seq<u8>, limit: usize, field: Field)
    requires
        value.len() <= limit <= u32::MAX,
    ensures
        read_bytes(field_bytes(value) + rest, limit, field) == Ok::<
            (Seq<u8>, Seq<u8>),
            ProtocolError,
        >((value, rest)),
{
    let length = value.len() as u32;
    assert(field_bytes(value) + rest =~= bytes::be_u32(length) + (value + rest));
    lemma_read_u32(length, value + rest);
    lemma_take(value, rest, Part::Body(field));
}

proof fn lemma_read_bytes_back(input: Seq<u8>, limit: usize, field: Field)
    requires
        limit <= u32::MAX,
        read_bytes(input, limit, field) is Ok,
    ensures
        ({
            let (value, rest) = read_bytes(input, limit, field)->Ok_0;
            value.len() <= limit && input == field_bytes(value) + rest
        }),
{
    lemma_read_u32_back(input);
    let (length, behind) = read_u32(input)->Ok_0;
    lemma_taken(behind, length as nat, Part::Body(field));
    let (value, rest) = read_bytes(input, limit, field)->Ok_0;
    assert(input =~= field_bytes(value) + rest);
}

proof fn lemma_read_string(value: Seq<char>, rest: Seq<u8>, limit: usize, field: Field)
    requires
        encode_utf8(value).len() <= limit <= u32::MAX,
    ensures
        read_string(text_bytes(value) + rest, limit, field) == Ok::<
            (Seq<char>, Seq<u8>),
            ProtocolError,
        >((value, rest)),
{
    lemma_read_bytes(encode_utf8(value), rest, limit, field);
    encode_utf8_valid_utf8(value);
    encode_utf8_decode_utf8(value);
}

proof fn lemma_read_string_back(input: Seq<u8>, limit: usize, field: Field)
    requires
        limit <= u32::MAX,
        read_string(input, limit, field) is Ok,
    ensures
        ({
            let (value, rest) = read_string(input, limit, field)->Ok_0;
            encode_utf8(value).len() <= limit && input == text_bytes(value) + rest
        }),
{
    lemma_read_bytes_back(input, limit, field);
    decode_utf8_encode_utf8(read_bytes(input, limit, field)->Ok_0.0);
}

proof fn lemma_read_flag(flag: u8, rest: Seq<u8>)
    ensures
        read_u8(seq![flag] + rest) == Ok::<(u8, Seq<u8>), ProtocolError>((flag, rest)),
{
    lemma_take(seq![flag], rest, Part::Byte);
}

proof fn lemma_read_flag_back(input: Seq<u8>)
    requires
        read_u8(input) is Ok,
    ensures
        input == seq![read_u8(input)->Ok_0.0] + read_u8(input)->Ok_0.1,
{
    lemma_taken(input, 1, Part::Byte);
    assert(input.subrange(0, 1) =~= seq![input.subrange(0, 1)[0]]);
}

proof fn lemma_read_expiry(value: Option<u64>, rest: Seq<u8>)
    ensures
        read_expiry(expiry_bytes(value) + rest) == Ok::<(Option<u64>, Seq<u8>), ProtocolError>(
            (value, rest),
        ),
{
    match value {
        Some(time) => {
            assert(expiry_bytes(value) + rest =~= seq![1u8] + (bytes::be_u64(time) + rest));
            lemma_read_flag(1, bytes::be_u64(time) + rest);
            lemma_read_u64(time, rest);
        },
        None => lemma_read_flag(0, rest),
    }
}

proof fn lemma_read_expiry_back(input: Seq<u8>)
    requires
        read_expiry(input) is Ok,
    ensures
        input == expiry_bytes(read_expiry(input)->Ok_0.0) + read_expiry(input)->Ok_0.1,
{
    lemma_read_flag_back(input);
    let (flag, behind) = read_u8(input)->Ok_0;
    if flag == 1 {
        lemma_read_u64_back(behind);
    }
    assert(input =~= expiry_bytes(read_expiry(input)->Ok_0.0) + read_expiry(input)->Ok_0.1);
}

proof fn lemma_read_address(value: Option<Seq<char>>, rest: Seq<u8>)
    requires
        value matches Some(address) ==> encode_utf8(address).len() <= MAX_ADDRESS_BYTES,
    ensures
        read_address(address_bytes(value) + rest) == Ok::<
            (Option<Seq<char>>, Seq<u8>),
            ProtocolError,
        >((value, rest)),
{
    match value {
        Some(address) => {
            assert(address_bytes(value) + rest =~= seq![1u8] + (text_bytes(address) + rest));
            lemma_read_flag(1, text_bytes(address) + rest);
            lemma_read_string(address, rest, MAX_ADDRESS_BYTES, Field::SenderAddress);
        },
        None => lemma_read_flag(0, rest),
    }
}

proof fn lemma_read_address_back(input: Seq<u8>)
    requires
        read_address(input) is Ok,
    ensures
        ({
            let (value, rest) = read_address(input)->Ok_0;
            &&& value matches Some(address) ==> encode_utf8(address).len() <= MAX_ADDRESS_BYTES
            &&& input == address_bytes(value) + rest
        }),
{
    lemma_read_flag_back(input);
    let (flag, behind) = read_u8(input)->Ok_0;
    if flag == 1 {
        lemma_read_string_back(behind, MAX_ADDRESS_BYTES, Field::SenderAddress);
    }
    assert(input =~= address_bytes(read_address(input)->Ok_0.0) + read_address(input)->Ok_0.1);
}

proof fn lemma_read_header(kind: u8, rest: Seq<u8>)
    requires
        header_bytes(kind).len() + rest.len() <= MAX_BODY,
    ensures
        read_header(header_bytes(kind) + rest, kind) == Ok::<Seq<u8>, ProtocolError>(rest),
{
    let input = header_bytes(kind) + rest;
    assert(input.subrange(0, 4) =~= seq![0u8, 1u8, 0u8, 1u8]);
    assert(input.skip(5) =~= rest);
}

proof fn lemma_read_header_back(input: Seq<u8>, kind: u8)
    requires
        read_header(input, kind) is Ok,
    ensures
        input == header_bytes(kind) + read_header(input, kind)->Ok_0,
{
    let front = input.subrange(0, 4);
    assert(front[0] == input[0] && front[1] == input[1] && front[2] == input[2] && front[3]
        == input[3]);
    assert(input =~= header_bytes(kind) + input.skip(5));
}

/// A submitted message is read back from the frame that was written for it.
pub proof fn law_submit_round_trip(value: SubmitView)
    requires
        submit_encoding(value) is Ok,
    ensures
        submit_decoding(submit_encoding(value)->Ok_0) == Ok::<SubmitView, ProtocolError>(value),
{
    let end = Seq::<u8>::empty();
    let tail3 = field_bytes(value.ciphertext);
    let tail2 = expiry_bytes(value.expires_at) + tail3;
    let tail1 = text_bytes(value.message_id) + tail2;
    let tail0 = text_bytes(value.recipient) + tail1;
    lemma_join5(
        header_bytes(KIND_SUBMIT),
        text_bytes(value.recipient),
        text_bytes(value.message_id),
        expiry_bytes(value.expires_at),
        tail3,
    );
    lemma_join_empty(tail3);
    assert(submit_frame(value) == header_bytes(KIND_SUBMIT) + tail0);
    lemma_read_header(KIND_SUBMIT, tail0);
    lemma_read_string(value.recipient, tail1, MAX_RECIPIENT_BYTES, Field::Recipient);
    lemma_read_string(value.message_id, tail2, MAX_MESSAGE_ID_BYTES, Field::MessageId);
    lemma_read_expiry(value.expires_at, tail3);
    lemma_read_bytes(value.ciphertext, end, MAX_CIPHERTEXT_BYTES, Field::Ciphertext);
}

/// A submit frame that is accepted is the one that is written for its message:
/// no message has two accepted frames.
pub proof fn law_submit_canonical(input: Seq<u8>)
    requires
        submit_decoding(input) is Ok,
    ensures
        submit_encoding(submit_decoding(input)->Ok_0) == Ok::<Seq<u8>, ProtocolError>(input),
{
    let value = submit_decoding(input)->Ok_0;
    lemma_read_header_back(input, KIND_SUBMIT);
    let rest0 = read_header(input, KIND_SUBMIT)->Ok_0;
    lemma_read_string_back(rest0, MAX_RECIPIENT_BYTES, Field::Recipient);
    let rest1 = read_string(rest0, MAX_RECIPIENT_BYTES, Field::Recipient)->Ok_0.1;
    lemma_read_string_back(rest1, MAX_MESSAGE_ID_BYTES, Field::MessageId);
    let rest2 = read_string(rest1, MAX_MESSAGE_ID_BYTES, Field::MessageId)->Ok_0.1;
    lemma_read_expiry_back(rest2);
    let rest3 = read_expiry(rest2)->Ok_0.1;
    lemma_read_bytes_back(rest3, MAX_CIPHERTEXT_BYTES, Field::Ciphertext);
    lemma_join5(
        header_bytes(KIND_SUBMIT),
        text_bytes(value.recipient),
        text_bytes(value.message_id),
        expiry_bytes(value.expires_at),
        field_bytes(value.ciphertext),
    );
    let rest4 = read_bytes(rest3, MAX_CIPHERTEXT_BYTES, Field::Ciphertext)->Ok_0.1;
    assert(rest4 =~= Seq::empty());
    lemma_join_empty(field_bytes(value.ciphertext));
}

proof fn lemma_read_origin(
    server_id: i64,
    sender: Seq<char>,
    sender_address: Option<Seq<char>>,
    rest: Seq<u8>,
)
    requires
        encode_utf8(sender).len() <= MAX_ADDRESS_BYTES,
        sender_address matches Some(address) ==> encode_utf8(address).len() <= MAX_ADDRESS_BYTES,
    ensures
        read_origin(
            bytes::be_u64(server_id as u64) + (text_bytes(sender) + (address_bytes(sender_address)
                + rest)),
        ) == Ok::<((i64, Seq<char>, Option<Seq<char>>), Seq<u8>), ProtocolError>(
            ((server_id, sender, sender_address), rest),
        ),
{
    let tail1 = address_bytes(sender_address) + rest;
    lemma_read_i64(server_id, text_bytes(sender) + tail1);
    lemma_read_string(sender, tail1, MAX_ADDRESS_BYTES, Field::Sender);
    lemma_read_address(sender_address, rest);
}

proof fn lemma_read_content(
    message_id: Seq<char>,
    accepted_at: u64,
    expires_at: Option<u64>,
    ciphertext: Seq<u8>,
    rest: Seq<u8>,
)
    requires
        encode_utf8(message_id).len() <= MAX_MESSAGE_ID_BYTES,
        ciphertext.len() <= MAX_CIPHERTEXT_BYTES,
    ensures
        read_content(
            text_bytes(message_id) + (bytes::be_u64(accepted_at) + (expiry_bytes(expires_at) + (
            field_bytes(ciphertext) + rest))),
        ) == Ok::<((Seq<char>, u64, Option<u64>, Seq<u8>), Seq<u8>), ProtocolError>(
            ((message_id, accepted_at, expires_at, ciphertext), rest),
        ),
{
    let tail2 = field_bytes(ciphertext) + rest;
    let tail1 = expiry_bytes(expires_at) + tail2;
    let tail0 = bytes::be_u64(accepted_at) + tail1;
    lemma_read_string(message_id, tail0, MAX_MESSAGE_ID_BYTES, Field::MessageId);
    lemma_read_u64(accepted_at, tail1);
    lemma_read_expiry(expires_at, tail2);
    lemma_read_bytes(ciphertext, rest, MAX_CIPHERTEXT_BYTES, Field::Ciphertext);
}

proof fn lemma_read_message(value: MessageView, rest: Seq<u8>)
    requires
        message_error(value) is None,
    ensures
        read_message(message_bytes(value) + rest) == Ok::<(MessageView, Seq<u8>), ProtocolError>(
            (value, rest),
        ),
{
    let content = text_bytes(value.message_id) + (bytes::be_u64(value.accepted_at) + (expiry_bytes(
        value.expires_at,
    ) + (field_bytes(value.ciphertext) + rest)));
    lemma_join8(
        bytes::be_u64(value.server_id as u64),
        text_bytes(value.sender),
        address_bytes(value.sender_address),
        text_bytes(value.message_id),
        bytes::be_u64(value.accepted_at),
        expiry_bytes(value.expires_at),
        field_bytes(value.ciphertext),
        rest,
    );
    lemma_read_origin(value.server_id, value.sender, value.sender_address, content);
    lemma_read_content(
        value.message_id,
        value.accepted_at,
        value.expires_at,
        value.ciphertext,
        rest,
    );
}

proof fn lemma_read_message_back(input: Seq<u8>)
    requires
        read_message(input) is Ok,
    ensures
        message_error(read_message(input)->Ok_0.0) is None,
        input == message_bytes(read_message(input)->Ok_0.0) + read_message(input)->Ok_0.1,
{
    let (value, rest) = read_message(input)->Ok_0;
    lemma_read_i64_back(input);
    let rest0 = read_i64(input)->Ok_0.1;
    lemma_read_string_back(rest0, MAX_ADDRESS_BYTES, Field::Sender);
    let rest1 = read_string(rest0, MAX_ADDRESS_BYTES, Field::Sender)->Ok_0.1;
    lemma_read_address_back(rest1);
    let rest2 = read_address(rest1)->Ok_0.1;
    lemma_read_string_back(rest2, MAX_MESSAGE_ID_BYTES, Field::MessageId);
    let rest3 = read_string(rest2, MAX_MESSAGE_ID_BYTES, Field::MessageId)->Ok_0.1;
    lemma_read_u64_back(rest3);
    let rest4 = read_u64(rest3)->Ok_0.1;
    lemma_read_expiry_back(rest4);
    let rest5 = read_expiry(rest4)->Ok_0.1;
    lemma_read_bytes_back(rest5, MAX_CIPHERTEXT_BYTES, Field::Ciphertext);
    lemma_join8(
        bytes::be_u64(value.server_id as u64),
        text_bytes(value.sender),
        address_bytes(value.sender_address),
        text_bytes(value.message_id),
        bytes::be_u64(value.accepted_at),
        expiry_bytes(value.expires_at),
        field_bytes(value.ciphertext),
        rest,
    );
}

proof fn lemma_read_message_list(values: Seq<MessageView>, rest: Seq<u8>)
    requires
        message_list_error(values) is None,
    ensures
        read_message_list(message_list_bytes(values) + rest, values.len()) == Ok::<
            (Seq<MessageView>, Seq<u8>),
            ProtocolError,
        >((values, rest)),
    decreases values.len(),
{
    if values.len() == 0 {
        assert(message_list_bytes(values) + rest =~= rest);
        assert(values =~= Seq::empty());
    } else {
        let behind = message_bytes(values.last()) + rest;
        lemma_join3(
            message_list_bytes(values.drop_last()),
            message_bytes(values.last()),
            rest,
        );
        lemma_read_message_list(values.drop_last(), behind);
        lemma_read_message(values.last(), rest);
        assert(values.drop_last().push(values.last()) =~= values);
    }
}

proof fn lemma_read_message_list_back(input: Seq<u8>, count: nat)
    requires
        read_message_list(input, count) is Ok,
    ensures
        ({
            let (values, rest) = read_message_list(input, count)->Ok_0;
            &&& values.len() == count
            &&& message_list_error(values) is None
            &&& input == message_list_bytes(values) + rest
        }),
    decreases count,
{
    if count == 0 {
        assert(input =~= message_list_bytes(Seq::empty()) + input);
    } else {
        lemma_read_message_list_back(input, (count - 1) as nat);
        let (front, behind) = read_message_list(input, (count - 1) as nat)->Ok_0;
        lemma_read_message_back(behind);
        let (values, rest) = read_message_list(input, count)->Ok_0;
        assert(values.drop_last() =~= front);
        lemma_join3(message_list_bytes(front), message_bytes(values.last()), rest);
    }
}

/// A list of messages is read back from the frame that was written for it.
pub proof fn law_messages_round_trip(values: Seq<MessageView>)
    requires
        messages_encoding(values) is Ok,
    ensures
        messages_decoding(messages_encoding(values)->Ok_0) == Ok::<Seq<MessageView>, ProtocolError>(
            values,
        ),
{
    let end = Seq::<u8>::empty();
    let count = values.len() as u32;
    let tail1 = message_list_bytes(values) + end;
    let tail0 = bytes::be_u32(count) + tail1;
    assert(messages_frame(values) =~= header_bytes(KIND_MESSAGES) + tail0);
    lemma_read_header(KIND_MESSAGES, tail0);
    lemma_read_u32(count, tail1);
    lemma_read_message_list(values, end);
}

/// A messages frame that is accepted is the one that is written for its list.
pub proof fn law_messages_canonical(input: Seq<u8>)
    requires
        messages_decoding(input) is Ok,
    ensures
        messages_encoding(messages_decoding(input)->Ok_0) == Ok::<Seq<u8>, ProtocolError>(input),
{
    let values = messages_decoding(input)->Ok_0;
    lemma_read_header_back(input, KIND_MESSAGES);
    let rest0 = read_header(input, KIND_MESSAGES)->Ok_0;
    lemma_read_u32_back(rest0);
    let (count, rest1) = read_u32(rest0)->Ok_0;
    lemma_read_message_list_back(rest1, count as nat);
    assert(input =~= messages_frame(values));
}

/// A time stands in a frame from a position on: a one and eight bytes, or a zero.
pub open spec fn expiry_at(frame: Seq<u8>, at: int, value: Option<u64>) -> bool {
    match value {
        Some(time) => frame[at] == 1 && bytes::long_number_at(frame, at + 1) == time,
        None => frame[at] == 0,
    }
}

/// How many bytes a time takes.
pub open spec fn expiry_length(value: Option<u64>) -> int {
    if value is Some {
        9
    } else {
        1
    }
}

proof fn lemma_expiry_stands(whole: Seq<u8>, front: Seq<u8>, value: Option<u64>, rest: Seq<u8>)
    requires
        whole == front + (expiry_bytes(value) + rest),
    ensures
        expiry_at(whole, front.len() as int, value),
        expiry_bytes(value).len() == expiry_length(value),
{
    if let Some(time) = value {
        let flag = seq![1u8];
        assert(whole =~= (front + flag) + (bytes::be_u64(time) + rest));
        bytes::lemma_long_number_stands(whole, front + flag, time, rest);
        bytes::law_long_numbers_are_big_endian(time, bytes::be_u64(time));
    }
}

/// A submission goes out as the version, the schema and the mark of a submission, the
/// recipient, the message's ID, the time until which it is kept, and the ciphertext.
pub proof fn law_submission_is_framed(value: SubmitView)
    requires
        submit_encoding(value) is Ok,
    ensures
        ({
            let frame = submit_encoding(value)->Ok_0;
            let recipient = encode_utf8(value.recipient);
            let id = encode_utf8(value.message_id);
            let id_at = 9int + recipient.len();
            let time_at = id_at + 4 + id.len();
            let ciphertext_at = time_at + expiry_length(value.expires_at);
            &&& frame[0] == 0 && frame[1] == 1
            &&& frame[2] == 0 && frame[3] == 1
            &&& frame[4] == 1
            &&& bytes::measured_at(frame, 5, recipient)
            &&& bytes::measured_at(frame, id_at, id)
            &&& expiry_at(frame, time_at, value.expires_at)
            &&& bytes::measured_at(frame, ciphertext_at, value.ciphertext)
            &&& frame.len() == ciphertext_at + 4 + value.ciphertext.len()
        }),
{
    let frame = submit_frame(value);
    let recipient = encode_utf8(value.recipient);
    let id = encode_utf8(value.message_id);
    let none = Seq::<u8>::empty();
    let tail2 = field_bytes(value.ciphertext);
    let tail1 = expiry_bytes(value.expires_at) + tail2;
    let tail0 = text_bytes(value.message_id) + tail1;
    let front0 = header_bytes(KIND_SUBMIT);
    assert(frame =~= front0 + (text_bytes(value.recipient) + tail0));
    bytes::lemma_measured(frame, front0, recipient, tail0);
    let front1 = front0 + text_bytes(value.recipient);
    assert(frame =~= front1 + tail0);
    bytes::lemma_measured(frame, front1, id, tail1);
    let front2 = front1 + text_bytes(value.message_id);
    assert(frame =~= front2 + tail1);
    lemma_expiry_stands(frame, front2, value.expires_at, tail2);
    let front3 = front2 + expiry_bytes(value.expires_at);
    assert(frame =~= front3 + (tail2 + none));
    bytes::lemma_measured(frame, front3, value.ciphertext, none);
}

/// A recipient and an ID have at most 256 bytes, and a frame at most sixteen mebibytes.
/// The first thing that is too long is the one that is named.
pub proof fn law_submission_is_bounded(value: SubmitView)
    ensures
        ({
            let recipient = encode_utf8(value.recipient).len();
            let id = encode_utf8(value.message_id).len();
            let all = 17 + recipient + id + expiry_length(value.expires_at)
                + value.ciphertext.len();
            &&& submit_encoding(value) is Ok <==> recipient <= 256 && id <= 256 && all <= 16_777_216
            &&& recipient > 256 ==> submit_encoding(value) == Err::<Seq<u8>, ProtocolError>(
                ProtocolError::FieldTooLong { field: Field::Recipient, limit: 256 },
            )
            &&& recipient <= 256 && id > 256 ==> submit_encoding(value) == Err::<
                Seq<u8>,
                ProtocolError,
            >(ProtocolError::FieldTooLong { field: Field::MessageId, limit: 256 })
            &&& recipient <= 256 && id <= 256 && value.ciphertext.len() > 16_777_216
                ==> submit_encoding(value) == Err::<Seq<u8>, ProtocolError>(
                ProtocolError::FieldTooLong { field: Field::Ciphertext, limit: 16_777_216 },
            )
            &&& recipient <= 256 && id <= 256 && value.ciphertext.len() <= 16_777_216 && all
                > 16_777_216 ==> submit_encoding(value) == Err::<Seq<u8>, ProtocolError>(
                ProtocolError::BodyTooLarge,
            )
        }),
{
    lemma_expiry_stands(
        expiry_bytes(value.expires_at) + Seq::empty(),
        Seq::empty(),
        value.expires_at,
        Seq::empty(),
    );
    assert(submit_frame(value).len() == 17 + encode_utf8(value.recipient).len() + encode_utf8(
        value.message_id,
    ).len() + expiry_length(value.expires_at) + value.ciphertext.len());
}

/// An address stands in a frame from a position on: a one and the text behind its
/// length, or a zero.
pub open spec fn address_at(frame: Seq<u8>, at: int, value: Option<Seq<char>>) -> bool {
    match value {
        Some(address) => frame[at] == 1 && bytes::measured_at(frame, at + 1, encode_utf8(address)),
        None => frame[at] == 0,
    }
}

/// How many bytes an address takes.
pub open spec fn address_length(value: Option<Seq<char>>) -> int {
    match value {
        Some(address) => 5int + encode_utf8(address).len(),
        None => 1,
    }
}

/// A number below zero counts down from two to the sixty-fourth.
pub open spec fn server_number(value: i64) -> int {
    if value < 0 {
        value + 0x1_0000_0000_0000_0000
    } else {
        value as int
    }
}

/// A message stands in a frame from a position on: the relay's number, the sender, the
/// sender's address, the message's ID, when it was taken, until when it is kept, and
/// the ciphertext.
pub open spec fn message_at(frame: Seq<u8>, at: int, value: MessageView) -> bool {
    let sender = encode_utf8(value.sender);
    let id = encode_utf8(value.message_id);
    let address = at + 12 + sender.len();
    let id_at = address + address_length(value.sender_address);
    let accepted_at = id_at + 4 + id.len();
    let ciphertext_at = accepted_at + 8 + expiry_length(value.expires_at);
    &&& bytes::long_number_at(frame, at) == server_number(value.server_id)
    &&& bytes::measured_at(frame, at + 8, sender)
    &&& address_at(frame, address, value.sender_address)
    &&& bytes::measured_at(frame, id_at, id)
    &&& bytes::long_number_at(frame, accepted_at) == value.accepted_at
    &&& expiry_at(frame, accepted_at + 8, value.expires_at)
    &&& bytes::measured_at(frame, ciphertext_at, value.ciphertext)
}

/// How many bytes a message takes.
pub open spec fn message_length(value: MessageView) -> int {
    28 + encode_utf8(value.sender).len() + address_length(value.sender_address) + encode_utf8(
        value.message_id,
    ).len() + expiry_length(value.expires_at) + value.ciphertext.len()
}

proof fn lemma_address_stands(
    whole: Seq<u8>,
    front: Seq<u8>,
    value: Option<Seq<char>>,
    rest: Seq<u8>,
)
    requires
        whole == front + (address_bytes(value) + rest),
        value matches Some(address) ==> encode_utf8(address).len() <= 256,
    ensures
        address_at(whole, front.len() as int, value),
        address_bytes(value).len() == address_length(value),
{
    if let Some(address) = value {
        let flag = seq![1u8];
        assert(whole =~= (front + flag) + (text_bytes(address) + rest));
        bytes::lemma_measured(whole, front + flag, encode_utf8(address), rest);
    }
}

proof fn lemma_shift(front: Seq<u8>, piece: Seq<u8>, rest: Seq<u8>)
    ensures
        front + (piece + rest) == (front + piece) + rest,
        (front + piece).len() == front.len() + piece.len(),
{
    assert(front + (piece + rest) =~= (front + piece) + rest);
}

#[verifier::rlimit(40)]
proof fn lemma_message_stands(
    whole: Seq<u8>,
    front: Seq<u8>,
    value: MessageView,
    rest: Seq<u8>,
)
    requires
        whole == front + (message_bytes(value) + rest),
        message_error(value) is None,
    ensures
        message_at(whole, front.len() as int, value),
        message_bytes(value).len() == message_length(value),
{
    let number = value.server_id as u64;
    let x = value.server_id;
    assert(number == (if x < 0 {
        x + 0x1_0000_0000_0000_0000
    } else {
        x as int
    })) by (bit_vector)
        requires
            number == x as u64,
    ;
    let number_bytes = bytes::be_u64(number);
    let sender = text_bytes(value.sender);
    let address = address_bytes(value.sender_address);
    let id = text_bytes(value.message_id);
    let accepted = bytes::be_u64(value.accepted_at);
    let expiry = expiry_bytes(value.expires_at);
    let ciphertext = field_bytes(value.ciphertext);
    let tail5 = ciphertext + rest;
    let tail4 = expiry + tail5;
    let tail3 = accepted + tail4;
    let tail2 = id + tail3;
    let tail1 = address + tail2;
    let tail0 = sender + tail1;
    lemma_join8(number_bytes, sender, address, id, accepted, expiry, ciphertext, rest);
    assert(whole == front + (number_bytes + tail0));
    bytes::lemma_long_number_stands(whole, front, number, tail0);
    let front0 = front + number_bytes;
    lemma_shift(front, number_bytes, tail0);
    bytes::lemma_measured(whole, front0, encode_utf8(value.sender), tail1);
    let front1 = front0 + sender;
    lemma_shift(front0, sender, tail1);
    lemma_address_stands(whole, front1, value.sender_address, tail2);
    let front2 = front1 + address;
    lemma_shift(front1, address, tail2);
    bytes::lemma_measured(whole, front2, encode_utf8(value.message_id), tail3);
    let front3 = front2 + id;
    lemma_shift(front2, id, tail3);
    bytes::lemma_long_number_stands(whole, front3, value.accepted_at, tail4);
    let front4 = front3 + accepted;
    lemma_shift(front3, accepted, tail4);
    lemma_expiry_stands(whole, front4, value.expires_at, tail5);
    let front5 = front4 + expiry;
    lemma_shift(front4, expiry, tail5);
    bytes::lemma_measured(whole, front5, value.ciphertext, rest);
}

/// Where a message begins behind those in front of it.
pub open spec fn message_start(values: Seq<MessageView>, index: int) -> int
    decreases index,
{
    if index <= 0 {
        9
    } else {
        message_start(values, index - 1) + message_length(values[index - 1])
    }
}

proof fn lemma_no_error(values: Seq<MessageView>, index: int)
    requires
        message_list_error(values) is None,
        0 <= index < values.len(),
    ensures
        message_error(values[index]) is None,
    decreases values.len(),
{
    if index < values.len() - 1 {
        lemma_no_error(values.drop_last(), index);
    }
}

proof fn lemma_list_stands(values: Seq<MessageView>, count: int)
    requires
        message_list_error(values) is None,
        0 <= count <= values.len(),
    ensures
        message_list_bytes(values.take(count)).len() == message_start(values, count) - 9,
        exists|rest: Seq<u8>|
            message_list_bytes(values) == message_list_bytes(values.take(count)) + rest && (count
                < values.len() ==> exists|behind: Seq<u8>|
                rest == #[trigger] (message_bytes(values[count]) + behind)),
    decreases values.len() - count, count,
{
    lemma_list_length(values, count);
    if count == values.len() {
        assert(values.take(count) =~= values);
        let none = Seq::<u8>::empty();
        assert(message_list_bytes(values) =~= message_list_bytes(values.take(count)) + none);
    } else {
        lemma_list_stands(values, count + 1);
        let next = values.take(count + 1);
        assert(next.drop_last() =~= values.take(count));
        let behind = choose|rest: Seq<u8>|
            message_list_bytes(values) == message_list_bytes(next) + rest;
        let rest = message_bytes(values[count]) + behind;
        assert(message_list_bytes(values) =~= message_list_bytes(values.take(count)) + rest);
    }
}

proof fn lemma_list_length(values: Seq<MessageView>, count: int)
    requires
        message_list_error(values) is None,
        0 <= count <= values.len(),
    ensures
        message_list_bytes(values.take(count)).len() == message_start(values, count) - 9,
    decreases count,
{
    if count > 0 {
        let some = values.take(count);
        assert(some.drop_last() =~= values.take(count - 1));
        lemma_list_length(values, count - 1);
        lemma_no_error(values, count - 1);
        let bytes = message_bytes(values[count - 1]);
        let none = Seq::<u8>::empty();
        assert(bytes =~= none + (bytes + none));
        lemma_message_stands(bytes, none, values[count - 1], none);
    }
}

/// A list of messages goes out as the version, the schema and the mark of a list, how
/// many there are, and one behind the other.
#[verifier::rlimit(40)]
pub proof fn law_messages_are_framed(values: Seq<MessageView>, index: int)
    requires
        messages_encoding(values) is Ok,
        0 <= index < values.len(),
    ensures
        ({
            let frame = messages_encoding(values)->Ok_0;
            &&& frame[0] == 0 && frame[1] == 1
            &&& frame[2] == 0 && frame[3] == 1
            &&& frame[4] == 2
            &&& bytes::number_at(frame, 5) == values.len()
            &&& message_at(frame, message_start(values, index), values[index])
            &&& frame.len() == message_start(values, values.len() as int)
        }),
{
    let frame = messages_frame(values);
    let count = bytes::be_u32(values.len() as u32);
    let list = message_list_bytes(values);
    let front = header_bytes(KIND_MESSAGES);
    assert(frame =~= front + (count + list));
    bytes::lemma_number_stands(frame, front, values.len() as u32, list);
    lemma_no_error(values, index);
    lemma_list_stands(values, index);
    lemma_list_length(values, values.len() as int);
    assert(values.take(values.len() as int) =~= values);
    let some = message_list_bytes(values.take(index));
    let rest = choose|rest: Seq<u8>|
        list == some + rest && exists|behind: Seq<u8>|
            rest == #[trigger] (message_bytes(values[index]) + behind);
    let behind = choose|behind: Seq<u8>|
        rest == #[trigger] (message_bytes(values[index]) + behind);
    let before = front + count + some;
    lemma_shift(front, count, list);
    lemma_shift(front + count, some, rest);
    lemma_message_stands(frame, before, values[index], behind);
}

/// What cannot be a frame is refused before anything in it is read: one that is too
/// long, one that is too short, one of another version or schema, and one of another
/// kind.
pub proof fn law_frames_are_told_apart(input: Seq<u8>)
    ensures
        input.len() > 16_777_216 ==> submit_decoding(input) == Err::<SubmitView, ProtocolError>(
            ProtocolError::BodyTooLarge,
        ) && messages_decoding(input) == Err::<Seq<MessageView>, ProtocolError>(
            ProtocolError::BodyTooLarge,
        ),
        input.len() < 5 ==> submit_decoding(input) == Err::<SubmitView, ProtocolError>(
            ProtocolError::TruncatedHeader,
        ) && messages_decoding(input) == Err::<Seq<MessageView>, ProtocolError>(
            ProtocolError::TruncatedHeader,
        ),
        5 <= input.len() <= 16_777_216 && !(input[0] == 0 && input[1] == 1 && input[2] == 0
            && input[3] == 1) ==> submit_decoding(input) == Err::<SubmitView, ProtocolError>(
            ProtocolError::UnsupportedVersion,
        ) && messages_decoding(input) == Err::<Seq<MessageView>, ProtocolError>(
            ProtocolError::UnsupportedVersion,
        ),
        5 <= input.len() <= 16_777_216 && input[0] == 0 && input[1] == 1 && input[2] == 0
            && input[3] == 1 ==> {
            &&& input[4] != 1 ==> submit_decoding(input) == Err::<SubmitView, ProtocolError>(
                ProtocolError::UnexpectedKind,
            )
            &&& input[4] != 2 ==> messages_decoding(input) == Err::<
                Seq<MessageView>,
                ProtocolError,
            >(ProtocolError::UnexpectedKind)
        },
{
    if input.len() >= 5 {
        let head = input.subrange(0, 4);
        assert(head[0] == input[0] && head[1] == input[1] && head[2] == input[2] && head[3]
            == input[3]);
        if input[0] == 0 && input[1] == 1 && input[2] == 0 && input[3] == 1 {
            assert(head =~= seq![0u8, 1u8, 0u8, 1u8]);
        }
    }
}

/// A submission with something behind it is no submission.
pub proof fn law_nothing_follows_a_submission(value: SubmitView, extra: Seq<u8>)
    requires
        submit_encoding(value) is Ok,
        extra.len() > 0,
        submit_encoding(value)->Ok_0.len() + extra.len() <= 16_777_216,
    ensures
        submit_decoding(submit_encoding(value)->Ok_0 + extra) == Err::<SubmitView, ProtocolError>(
            ProtocolError::TrailingBytes,
        ),
{
    let tail3 = field_bytes(value.ciphertext) + extra;
    let tail2 = expiry_bytes(value.expires_at) + tail3;
    let tail1 = text_bytes(value.message_id) + tail2;
    let tail0 = text_bytes(value.recipient) + tail1;
    assert(submit_frame(value) + extra =~= header_bytes(KIND_SUBMIT) + tail0);
    lemma_read_header(KIND_SUBMIT, tail0);
    lemma_read_string(value.recipient, tail1, MAX_RECIPIENT_BYTES, Field::Recipient);
    lemma_read_string(value.message_id, tail2, MAX_MESSAGE_ID_BYTES, Field::MessageId);
    lemma_read_expiry(value.expires_at, tail3);
    lemma_read_bytes(value.ciphertext, extra, MAX_CIPHERTEXT_BYTES, Field::Ciphertext);
}

/// A list with something behind it is no list, and neither is one of more than a
/// hundred messages.
pub proof fn law_nothing_follows_the_messages(values: Seq<MessageView>, extra: Seq<u8>)
    ensures
        values.len() > 100 ==> messages_encoding(values) == Err::<Seq<u8>, ProtocolError>(
            ProtocolError::TooManyMessages,
        ),
        messages_encoding(values) matches Ok(frame) ==> extra.len() > 0 && frame.len() + extra.len()
            <= 16_777_216 ==> messages_decoding(frame + extra) == Err::<
            Seq<MessageView>,
            ProtocolError,
        >(ProtocolError::TrailingBytes),
{
    if let Ok(frame) = messages_encoding(values) {
        if extra.len() > 0 && frame.len() + extra.len() <= 16_777_216 {
            let count = values.len() as u32;
            let tail1 = message_list_bytes(values) + extra;
            let tail0 = bytes::be_u32(count) + tail1;
            assert(frame + extra =~= header_bytes(KIND_MESSAGES) + tail0);
            lemma_read_header(KIND_MESSAGES, tail0);
            lemma_read_u32(count, tail1);
            lemma_read_message_list(values, extra);
        }
    }
}

} // verus!
