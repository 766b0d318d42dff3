//! Frames that carry Signal data: envelopes, application messages, prekey
//! bundles and identity recovery records.
//!
//! Every frame opens with the format version and the kind of the frame. Keys and
//! signatures are opaque byte strings here; whether they are valid is for the
//! protocol implementation to say.
use vstd::prelude::*;
use vstd::utf8::*;

use crate::bytes;
use crate::bytes::{copy_range, get_u32, get_u64, push_bytes, push_u32, push_u64, same_bytes};
use crate::primitives;
use crate::primitives::{random_16, zlib_compress, zlib_decompress};
use crate::text;
use crate::text::{decimal_text, hex_text, utf8_string};

verus! {

pub const FORMAT_VERSION: u8 = 1;

pub const FRAME_RECOVERY: u8 = 1;

pub const FRAME_BUNDLE: u8 = 2;

pub const FRAME_ENVELOPE: u8 = 3;

pub const FRAME_MESSAGE: u8 = 4;

pub const FRAME_MESSAGE_COMPRESSED: u8 = 5;

pub const ENVELOPE_HEADER_LEN: usize = 1 + 1 + 1 + 4;

pub const MESSAGE_HEADER_LEN: usize = 1 + 1 + 16 + 4 + 4;

pub const MAX_CIPHERTEXT_LEN: usize = 16 * 1024 * 1024;

pub const MIN_COMPRESSIBLE_MESSAGE_LEN: usize = 256;

pub const MAX_MESSAGE_LEN: usize = 8 * 1024 * 1024;

pub const MAX_BUNDLE_FIELD_LEN: usize = 16 * 1024;

/// Exact libsignal revision whose records and messages the frames carry.
pub const LIBSIGNAL_REVISION: &'static str = "b5121d07c72f9e631f178d907ca892587f64f9e2";

/// The libsignal revision that the frames belong to.
pub fn upstream_revision() -> (revision: &'static str)
    ensures
        revision@ == LIBSIGNAL_REVISION@,
{
    LIBSIGNAL_REVISION
}

/// Why a frame could not be written or read.
#[derive(Clone, Copy, Debug, PartialEq, Eq, Structural)]
pub enum SignalError {
    InvalidMessageIdLength,
    MessageTooLong,
    CompressionFailed,
    TruncatedMessage,
    UnsupportedMessageVersion,
    TruncatedCompressedMessage,
    InvalidCompressedLength,
    DecompressionFailed,
    DecompressedLengthMismatch,
    UnsupportedMessageFrame,
    UnsupportedCiphertextType,
    CiphertextTooLong,
    InvalidEnvelope,
    InvalidEnvelopeLength,
    FieldTooLarge,
    InvalidFrame,
    Truncated,
    NameNotUtf8,
    TrailingBundleBytes,
    InvalidRecoveryConfirmation,
    TrailingRecoveryBytes,
    EmptyPeerName,
    ZeroDeviceId,
}

/// What is wrong with a frame, in words.
pub open spec fn error_text(error: SignalError) -> Seq<char> {
    match error {
        SignalError::InvalidMessageIdLength => "invalid message ID length"@,
        SignalError::MessageTooLong => "SafeChat message exceeds its limit"@,
        SignalError::CompressionFailed => "compressing SafeChat message"@,
        SignalError::TruncatedMessage => "truncated SafeChat message"@,
        SignalError::UnsupportedMessageVersion => "unsupported SafeChat message version"@,
        SignalError::TruncatedCompressedMessage => "truncated compressed SafeChat message"@,
        SignalError::InvalidCompressedLength => "invalid compressed SafeChat message length"@,
        SignalError::DecompressionFailed => "decompressing SafeChat message"@,
        SignalError::DecompressedLengthMismatch => "decompressed message length mismatch"@,
        SignalError::UnsupportedMessageFrame => "unsupported SafeChat message frame"@,
        SignalError::UnsupportedCiphertextType => "unsupported Signal ciphertext type"@,
        SignalError::CiphertextTooLong => "Signal ciphertext exceeds SafeChat limit"@,
        SignalError::InvalidEnvelope => "invalid Signal envelope"@,
        SignalError::InvalidEnvelopeLength => "invalid Signal envelope length"@,
        SignalError::FieldTooLarge => "Signal bundle field is too large"@,
        SignalError::InvalidFrame => "invalid SafeChat frame"@,
        SignalError::Truncated => "truncated Signal bundle"@,
        SignalError::NameNotUtf8 => "bundle name is not UTF-8"@,
        SignalError::TrailingBundleBytes => "trailing bytes in Signal prekey bundle"@,
        SignalError::InvalidRecoveryConfirmation => "invalid recovery confirmation"@,
        SignalError::TrailingRecoveryBytes => "trailing bytes in recovery record"@,
        SignalError::EmptyPeerName => "peer name must not be empty"@,
        SignalError::ZeroDeviceId => "device ID must not be zero"@,
    }
}

impl SignalError {
    /// What a user is told.
    pub fn message(self) -> (message: &'static str)
        ensures
            message@ == error_text(self),
    {
        match self {
            SignalError::InvalidMessageIdLength => "invalid message ID length",
            SignalError::MessageTooLong => "SafeChat message exceeds its limit",
            SignalError::CompressionFailed => "compressing SafeChat message",
            SignalError::TruncatedMessage => "truncated SafeChat message",
            SignalError::UnsupportedMessageVersion => "unsupported SafeChat message version",
            SignalError::TruncatedCompressedMessage => "truncated compressed SafeChat message",
            SignalError::InvalidCompressedLength => "invalid compressed SafeChat message length",
            SignalError::DecompressionFailed => "decompressing SafeChat message",
            SignalError::DecompressedLengthMismatch => "decompressed message length mismatch",
            SignalError::UnsupportedMessageFrame => "unsupported SafeChat message frame",
            SignalError::UnsupportedCiphertextType => "unsupported Signal ciphertext type",
            SignalError::CiphertextTooLong => "Signal ciphertext exceeds SafeChat limit",
            SignalError::InvalidEnvelope => "invalid Signal envelope",
            SignalError::InvalidEnvelopeLength => "invalid Signal envelope length",
            SignalError::FieldTooLarge => "Signal bundle field is too large",
            SignalError::InvalidFrame => "invalid SafeChat frame",
            SignalError::Truncated => "truncated Signal bundle",
            SignalError::NameNotUtf8 => "bundle name is not UTF-8",
            SignalError::TrailingBundleBytes => "trailing bytes in Signal prekey bundle",
            SignalError::InvalidRecoveryConfirmation => "invalid recovery confirmation",
            SignalError::TrailingRecoveryBytes => "trailing bytes in recovery record",
            SignalError::EmptyPeerName => "peer name must not be empty",
            SignalError::ZeroDeviceId => "device ID must not be zero",
        }
    }
}

// ---------------------------------------------------------------------------
// Addresses
// ---------------------------------------------------------------------------

/// A name and a device number as they are shown: `name.device`.
pub open spec fn address_text(name: Seq<char>, device_id: u32) -> Seq<char> {
    name + seq!['.'] + text::decimal(device_id as nat)
}

/// Writes a name and a device number as `name.device`.
pub(crate) fn write_address(name: &str, device_id: u32) -> (result: String)
    ensures
        result@ == address_text(name@, device_id),
{
    let mut result = name.to_owned();
    result.push('.');
    result.append(decimal_text(device_id as u64).as_str());
    assert(result@ =~= address_text(name@, device_id));
    result
}

/// Stable representation of a Signal peer address: a non-empty name and a
/// non-zero device number.
#[derive(Clone, Debug, Eq, Hash, PartialEq)]
pub struct PeerAddress {
    name: String,
    device_id: u32,
}

impl PeerAddress {
    /// The name of the peer.
    pub closed spec fn spec_name(self) -> Seq<char> {
        self.name@
    }

    /// The device of the peer.
    pub closed spec fn spec_device_id(self) -> u32 {
        self.device_id
    }

    /// An address of a named device.
    pub open spec fn wf(self) -> bool {
        self.spec_name().len() > 0 && self.spec_device_id() != 0
    }

    pub fn new(name: String, device_id: u32) -> (result: Result<PeerAddress, SignalError>)
        ensures
            if name@.len() == 0 {
                result == Err::<PeerAddress, SignalError>(SignalError::EmptyPeerName)
            } else if device_id == 0 {
                result == Err::<PeerAddress, SignalError>(SignalError::ZeroDeviceId)
            } else {
                &&& result matches Ok(address)
                &&& address.wf()
                &&& address.spec_name() == name@
                &&& address.spec_device_id() == device_id
            },
    {
        if name.as_str().is_empty() {
            return Err(SignalError::EmptyPeerName);
        }
        if device_id == 0 {
            return Err(SignalError::ZeroDeviceId);
        }
        Ok(PeerAddress { name, device_id })
    }

    pub fn name(&self) -> (name: &str)
        ensures
            name@ == self.spec_name(),
    {
        self.name.as_str()
    }

    pub fn device_id(&self) -> (device_id: u32)
        ensures
            device_id == self.spec_device_id(),
    {
        self.device_id
    }

    /// The address as it is shown.
    pub fn text(&self) -> (result: String)
        ensures
            result@ == address_text(self.spec_name(), self.spec_device_id()),
    {
        write_address(self.name.as_str(), self.device_id)
    }
}

/// Two different addresses are never shown alike, whatever dots the names hold.
pub proof fn law_address_injective(
    left_name: Seq<char>,
    left_device: u32,
    right_name: Seq<char>,
    right_device: u32,
)
    requires
        address_text(left_name, left_device) == address_text(right_name, right_device),
    ensures
        left_name == right_name,
        left_device == right_device,
{
    let left = address_text(left_name, left_device);
    let right = address_text(right_name, right_device);
    text::lemma_decimal_value(left_device as nat);
    text::lemma_decimal_value(right_device as nat);
    assert(left.len() == left_name.len() + 1 + text::decimal(left_device as nat).len());
    assert(right.len() == right_name.len() + 1 + text::decimal(right_device as nat).len());
    assert(left[left_name.len() as int] == '.');
    assert(right[right_name.len() as int] == '.');
    if left_name.len() < right_name.len() {
        let position = right_name.len() - left_name.len() - 1;
        assert(left[right_name.len() as int] == text::decimal(left_device as nat)[position]);
        assert(false);
    }
    if right_name.len() < left_name.len() {
        let position = left_name.len() - right_name.len() - 1;
        assert(right[left_name.len() as int] == text::decimal(right_device as nat)[position]);
        assert(false);
    }
    assert(left_name =~= left.take(left_name.len() as int));
    assert(right_name =~= right.take(right_name.len() as int));
    assert(text::decimal(left_device as nat) =~= left.skip(left_name.len() as int + 1));
    assert(text::decimal(right_device as nat) =~= right.skip(right_name.len() as int + 1));
}

// ---------------------------------------------------------------------------
// Envelopes
// ---------------------------------------------------------------------------

/// Carrier-neutral serialized Signal ciphertext.
#[derive(Clone, Debug, Eq, PartialEq)]
pub struct SignalEnvelope {
    pub message_type: u8,
    pub ciphertext: Vec<u8>,
}

/// Signal message type for an established session.
pub const WHISPER_TYPE: u8 = 2;

/// Signal message type for an initial pre-key session message.
pub const PREKEY_TYPE: u8 = 3;

/// The contents of a [`SignalEnvelope`].
#[verifier::ext_equal]
pub struct EnvelopeView {
    pub message_type: u8,
    pub ciphertext: Seq<u8>,
}

impl View for SignalEnvelope {
    type V = EnvelopeView;

    open spec fn view(&self) -> EnvelopeView {
        EnvelopeView { message_type: self.message_type, ciphertext: self.ciphertext@ }
    }
}

/// The message types that an envelope may carry.
pub open spec fn supported_type(message_type: u8) -> bool {
    message_type == WHISPER_TYPE || message_type == PREKEY_TYPE
}

/// The frame of an envelope.
pub open spec fn envelope_frame(value: EnvelopeView) -> Seq<u8> {
    seq![FORMAT_VERSION, FRAME_ENVELOPE, value.message_type] + bytes::be_u32(
        value.ciphertext.len() as u32,
    ) + value.ciphertext
}

/// What writing an envelope gives.
pub open spec fn envelope_encoding(value: EnvelopeView) -> Result<Seq<u8>, SignalError> {
    if !supported_type(value.message_type) {
        Err(SignalError::UnsupportedCiphertextType)
    } else if value.ciphertext.len() > MAX_CIPHERTEXT_LEN {
        Err(SignalError::CiphertextTooLong)
    } else {
        Ok(envelope_frame(value))
    }
}

/// What reading an envelope gives.
pub open spec fn envelope_decoding(input: Seq<u8>) -> Result<EnvelopeView, SignalError> {
    if input.len() < ENVELOPE_HEADER_LEN || input[0] != FORMAT_VERSION || input[1]
        != FRAME_ENVELOPE {
        Err(SignalError::InvalidEnvelope)
    } else if !supported_type(input[2]) {
        Err(SignalError::UnsupportedCiphertextType)
    } else {
        let length = bytes::be_u32_value(input.subrange(3, 7));
        if length > MAX_CIPHERTEXT_LEN || input.len() != ENVELOPE_HEADER_LEN + length {
            Err(SignalError::InvalidEnvelopeLength)
        } else {
            Ok(EnvelopeView { message_type: input[2], ciphertext: input.skip(7) })
        }
    }
}

impl SignalEnvelope {
    /// Frames the ciphertext that the protocol implementation gave.
    pub fn from_ciphertext(message_type: u8, ciphertext: Vec<u8>) -> (result: Result<
        SignalEnvelope,
        SignalError,
    >)
        ensures
            if !supported_type(message_type) {
                result == Err::<SignalEnvelope, SignalError>(SignalError::UnsupportedCiphertextType)
            } else if ciphertext@.len() > MAX_CIPHERTEXT_LEN {
                result == Err::<SignalEnvelope, SignalError>(SignalError::CiphertextTooLong)
            } else {
                result matches Ok(envelope) && envelope@ == (EnvelopeView {
                    message_type,
                    ciphertext: ciphertext@,
                })
            },
    {
        if message_type != WHISPER_TYPE && message_type != PREKEY_TYPE {
            return Err(SignalError::UnsupportedCiphertextType);
        }
        if ciphertext.len() > MAX_CIPHERTEXT_LEN {
            return Err(SignalError::CiphertextTooLong);
        }
        Ok(SignalEnvelope { message_type, ciphertext })
    }

    /// Serialize the frame for any carrier adapter.
    pub fn encode(&self) -> (result: Result<Vec<u8>, SignalError>)
        ensures
            match envelope_encoding(self@) {
                Ok(frame) => result matches Ok(output) && output@ == frame,
                Err(error) => result == Err::<Vec<u8>, SignalError>(error),
            },
    {
        if self.message_type != WHISPER_TYPE && self.message_type != PREKEY_TYPE {
            return Err(SignalError::UnsupportedCiphertextType);
        }
        if self.ciphertext.len() > MAX_CIPHERTEXT_LEN {
            return Err(SignalError::CiphertextTooLong);
        }
        let mut output: Vec<u8> = Vec::with_capacity(ENVELOPE_HEADER_LEN + self.ciphertext.len());
        output.push(FORMAT_VERSION);
        output.push(FRAME_ENVELOPE);
        output.push(self.message_type);
        push_u32(&mut output, self.ciphertext.len() as u32);
        push_bytes(&mut output, self.ciphertext.as_slice());
        assert(output@ =~= envelope_frame(self@));
        Ok(output)
    }

    /// Parse and validate a carrier-independent frame.
    pub fn decode(input: &[u8]) -> (result: Result<SignalEnvelope, SignalError>)
        ensures
            match envelope_decoding(input@) {
                Ok(value) => result matches Ok(envelope) && envelope@ == value,
                Err(error) => result == Err::<SignalEnvelope, SignalError>(error),
            },
    {
        if input.len() < ENVELOPE_HEADER_LEN || input[0] != FORMAT_VERSION || input[1]
            != FRAME_ENVELOPE {
            return Err(SignalError::InvalidEnvelope);
        }
        let message_type: u8 = input[2];
        if message_type != WHISPER_TYPE && message_type != PREKEY_TYPE {
            return Err(SignalError::UnsupportedCiphertextType);
        }
        let length: u32 = get_u32(input, 3);
        if length as usize > MAX_CIPHERTEXT_LEN || input.len() != ENVELOPE_HEADER_LEN
            + length as usize {
            return Err(SignalError::InvalidEnvelopeLength);
        }
        let ciphertext = copy_range(input, ENVELOPE_HEADER_LEN, input.len());
        assert(ciphertext@ =~= input@.skip(7));
        Ok(SignalEnvelope { message_type, ciphertext })
    }
}

/// An envelope is read back from its frame.
pub proof fn law_envelope_round_trip(value: EnvelopeView)
    requires
        envelope_encoding(value) is Ok,
    ensures
        envelope_decoding(envelope_encoding(value)->Ok_0) == Ok::<EnvelopeView, SignalError>(value),
{
    let frame = envelope_frame(value);
    let length = value.ciphertext.len() as u32;
    bytes::lemma_be_u32(length);
    assert(frame.subrange(3, 7) =~= bytes::be_u32(length));
    assert(frame.skip(7) =~= value.ciphertext);
}

/// An accepted envelope frame is the one that is written for its contents.
pub proof fn law_envelope_canonical(input: Seq<u8>)
    requires
        envelope_decoding(input) is Ok,
    ensures
        envelope_encoding(envelope_decoding(input)->Ok_0) == Ok::<Seq<u8>, SignalError>(input),
{
    bytes::lemma_be_u32_value(input.subrange(3, 7));
    let value = envelope_decoding(input)->Ok_0;
    assert(value.ciphertext.len() as u32 == bytes::be_u32_value(input.subrange(3, 7)));
    assert(envelope_frame(value) =~= input) by {
        assert forall|i: int| 3 <= i < 7 implies envelope_frame(value)[i] == input[i] by {
            assert(input.subrange(3, 7)[i - 3] == input[i]);
        }
    }
}

// ---------------------------------------------------------------------------
// Application messages
// ---------------------------------------------------------------------------

/// Application-level message identity carried inside the authenticated Signal
/// plaintext. Signal protects the session; the ID keeps one logical message from
/// being written to history more than once.
#[derive(Clone, Copy, Debug, Eq, Hash, PartialEq)]
pub struct MessageId([u8; 16]);

impl View for MessageId {
    type V = Seq<u8>;

    closed spec fn view(&self) -> Seq<u8> {
        self.0@
    }
}

impl MessageId {
    /// A fresh random ID.
    pub fn generate() -> (id: MessageId)
        ensures
            id@.len() == 16,
    {
        MessageId(random_16())
    }

    /// The ID in hexadecimal notation.
    pub fn encode(self) -> (result: String)
        ensures
            result@ == text::hex(self@),
            result@.len() == 32,
    {
        let result = hex_text(self.0.as_slice());
        assert(self@.len() == 16);
        result
    }

    /// The bytes of the ID.
    pub fn bytes(self) -> (result: [u8; 16])
        ensures
            result@ == self@,
    {
        self.0
    }

    /// The ID with the given bytes.
    pub fn from_bytes(bytes: &[u8]) -> (result: Result<MessageId, SignalError>)
        ensures
            if bytes@.len() == 16 {
                result matches Ok(id) && id@ == bytes@
            } else {
                result == Err::<MessageId, SignalError>(SignalError::InvalidMessageIdLength)
            },
    {
        if bytes.len() != 16 {
            return Err(SignalError::InvalidMessageIdLength);
        }
        let mut id: [u8; 16] = [0;16];
        let mut index: usize = 0;
        while index < 16
            invariant
                index <= 16,
                bytes@.len() == 16,
                forall|i: int| 0 <= i < index ==> id@[i] == bytes@[i],
            decreases 16 - index,
        {
            id[index] = bytes[index];
            index += 1;
        }
        assert(id@ =~= bytes@);
        Ok(MessageId(id))
    }
}

/// Two IDs with the same notation are the same ID.
pub proof fn law_message_id_text_injective(left: Seq<u8>, right: Seq<u8>)
    requires
        text::hex(left) == text::hex(right),
    ensures
        left == right,
{
    text::law_hex_injective(left, right);
}

/// A message before it is encrypted, or after it was decrypted.
#[derive(Clone, Debug, Eq, PartialEq)]
pub struct SafeChatMessage {
    pub id: MessageId,
    pub plaintext: Vec<u8>,
}

/// The contents of a [`SafeChatMessage`].
#[verifier::ext_equal]
pub struct SafeChatMessageView {
    pub id: Seq<u8>,
    pub plaintext: Seq<u8>,
}

impl View for SafeChatMessage {
    type V = SafeChatMessageView;

    open spec fn view(&self) -> SafeChatMessageView {
        SafeChatMessageView { id: self.id@, plaintext: self.plaintext@ }
    }
}

/// A message frame: its kind, the ID, the length of the plaintext and the bytes
/// that stand for it.
pub open spec fn message_frame(
    kind: u8,
    id: Seq<u8>,
    length: u32,
    stored: Seq<u8>,
) -> Seq<u8> {
    seq![FORMAT_VERSION, kind] + id + bytes::be_u32(length) + bytes::be_u32(stored.len() as u32)
        + stored
}

/// What writing a message gives when its zlib stream is `stream`: a plaintext of
/// some length that the stream shortens is stored as the stream, any other as it
/// is.
pub open spec fn message_encoding(
    value: SafeChatMessageView,
    stream: Option<Seq<u8>>,
) -> Result<Seq<u8>, SignalError> {
    if value.plaintext.len() > MAX_MESSAGE_LEN {
        Err(SignalError::MessageTooLong)
    } else {
        match stream {
            None => Err(SignalError::CompressionFailed),
            Some(compressed) => {
                let length = value.plaintext.len() as u32;
                if value.plaintext.len() >= MIN_COMPRESSIBLE_MESSAGE_LEN && compressed.len()
                    < value.plaintext.len() {
                    Ok(message_frame(FRAME_MESSAGE_COMPRESSED, value.id, length, compressed))
                } else {
                    Ok(message_frame(FRAME_MESSAGE, value.id, length, value.plaintext))
                }
            },
        }
    }
}

/// The frame of a message, taken apart.
#[verifier::ext_equal]
pub struct MessageParts {
    pub compressed: bool,
    pub id: Seq<u8>,
    pub length: u32,
    pub stored: Seq<u8>,
}

/// Takes the frame of a message apart.
pub open spec fn message_parts(input: Seq<u8>) -> Result<MessageParts, SignalError> {
    if input.len() < 2 {
        Err(SignalError::TruncatedMessage)
    } else if input[0] != FORMAT_VERSION {
        Err(SignalError::UnsupportedMessageVersion)
    } else {
        let compressed = input[1] == FRAME_MESSAGE_COMPRESSED;
        if !compressed && input[1] != FRAME_MESSAGE {
            Err(SignalError::UnsupportedMessageFrame)
        } else if input.len() < MESSAGE_HEADER_LEN {
            if compressed {
                Err(SignalError::TruncatedCompressedMessage)
            } else {
                Err(SignalError::TruncatedMessage)
            }
        } else {
            let length = bytes::be_u32_value(input.subrange(18, 22));
            let stored_length = bytes::be_u32_value(input.subrange(22, 26));
            if length > MAX_MESSAGE_LEN || stored_length > MAX_MESSAGE_LEN || (!compressed
                && stored_length != length) || input.len() != MESSAGE_HEADER_LEN + stored_length {
                if compressed {
                    Err(SignalError::InvalidCompressedLength)
                } else {
                    Err(SignalError::MessageTooLong)
                }
            } else {
                Ok(
                    MessageParts {
                        compressed,
                        id: input.subrange(2, 18),
                        length,
                        stored: input.skip(26),
                    },
                )
            }
        }
    }
}

/// The message in a frame that was taken apart, when `inflated` is what reading
/// one byte more than its length from its zlib stream gives.
pub open spec fn message_from_parts(
    parts: MessageParts,
    inflated: Option<Seq<u8>>,
) -> Result<SafeChatMessageView, SignalError> {
    if !parts.compressed {
        Ok(SafeChatMessageView { id: parts.id, plaintext: parts.stored })
    } else {
        match inflated {
            None => Err(SignalError::DecompressionFailed),
            Some(plaintext) => if plaintext.len() != parts.length {
                Err(SignalError::DecompressedLengthMismatch)
            } else {
                Ok(SafeChatMessageView { id: parts.id, plaintext })
            },
        }
    }
}

/// What reading a message gives.
pub open spec fn message_decoding(input: Seq<u8>) -> Result<SafeChatMessageView, SignalError> {
    match message_parts(input) {
        Err(error) => Err(error),
        Ok(parts) => message_from_parts(
            parts,
            primitives::zlib_read(parts.stored, (parts.length + 1) as nat),
        ),
    }
}

/// A message frame with its parts still apart.
#[derive(Debug)]
pub struct FramedMessage {
    pub compressed: bool,
    pub id: MessageId,
    pub length: u32,
    pub stored: Vec<u8>,
}

impl View for FramedMessage {
    type V = MessageParts;

    open spec fn view(&self) -> MessageParts {
        MessageParts {
            compressed: self.compressed,
            id: self.id@,
            length: self.length,
            stored: self.stored@,
        }
    }
}

impl FramedMessage {
    /// Takes a frame apart.
    pub fn split(input: &[u8]) -> (result: Result<FramedMessage, SignalError>)
        ensures
            match message_parts(input@) {
                Ok(parts) => result matches Ok(framed) && framed@ == parts,
                Err(error) => result == Err::<FramedMessage, SignalError>(error),
            },
    {
        if input.len() < 2 {
            return Err(SignalError::TruncatedMessage);
        }
        if input[0] != FORMAT_VERSION {
            return Err(SignalError::UnsupportedMessageVersion);
        }
        let compressed = input[1] == FRAME_MESSAGE_COMPRESSED;
        if !compressed && input[1] != FRAME_MESSAGE {
            return Err(SignalError::UnsupportedMessageFrame);
        }
        if input.len() < MESSAGE_HEADER_LEN {
            return Err(
                if compressed {
                    SignalError::TruncatedCompressedMessage
                } else {
                    SignalError::TruncatedMessage
                },
            );
        }
        let length: u32 = get_u32(input, 18);
        let stored_length: u32 = get_u32(input, 22);
        if length as usize > MAX_MESSAGE_LEN || stored_length as usize > MAX_MESSAGE_LEN || (
        !compressed && stored_length != length) || input.len() != MESSAGE_HEADER_LEN
            + stored_length as usize {
            return Err(
                if compressed {
                    SignalError::InvalidCompressedLength
                } else {
                    SignalError::MessageTooLong
                },
            );
        }
        let id = MessageId::from_bytes(copy_range(input, 2, 18).as_slice())?;
        let stored = copy_range(input, MESSAGE_HEADER_LEN, input.len());
        assert(stored@ =~= input@.skip(26));
        Ok(FramedMessage { compressed, id, length, stored })
    }

    /// Puts the message together, given what came out of its zlib stream.
    pub fn join(self, inflated: Option<Vec<u8>>) -> (result: Result<SafeChatMessage, SignalError>)
        ensures
            match message_from_parts(
                self@,
                match inflated {
                    Some(plaintext) => Some(plaintext@),
                    None => None,
                },
            ) {
                Ok(value) => result matches Ok(message) && message@ == value,
                Err(error) => result == Err::<SafeChatMessage, SignalError>(error),
            },
    {
        if !self.compressed {
            return Ok(SafeChatMessage { id: self.id, plaintext: self.stored });
        }
        match inflated {
            None => Err(SignalError::DecompressionFailed),
            Some(plaintext) => {
                if plaintext.len() as u64 != self.length as u64 {
                    return Err(SignalError::DecompressedLengthMismatch);
                }
                Ok(SafeChatMessage { id: self.id, plaintext })
            },
        }
    }
}

impl SafeChatMessage {
    /// A message with a fresh ID.
    pub fn new(plaintext: &[u8]) -> (message: SafeChatMessage)
        ensures
            message@.plaintext == plaintext@,
            message@.id.len() == 16,
    {
        SafeChatMessage {
            id: MessageId::generate(),
            plaintext: vstd::slice::slice_to_vec(plaintext),
        }
    }

    /// Frames the message when its zlib stream is `stream`.
    pub fn frame(&self, stream: Option<Vec<u8>>) -> (result: Result<Vec<u8>, SignalError>)
        ensures
            match message_encoding(
                self@,
                match stream {
                    Some(compressed) => Some(compressed@),
                    None => None,
                },
            ) {
                Ok(frame) => result matches Ok(output) && output@ == frame,
                Err(error) => result == Err::<Vec<u8>, SignalError>(error),
            },
    {
        if self.plaintext.len() > MAX_MESSAGE_LEN {
            return Err(SignalError::MessageTooLong);
        }
        let compressed = match stream {
            Some(compressed) => compressed,
            None => {
                return Err(SignalError::CompressionFailed);
            },
        };
        let length: u32 = self.plaintext.len() as u32;
        let shorter = self.plaintext.len() >= MIN_COMPRESSIBLE_MESSAGE_LEN && compressed.len()
            < self.plaintext.len();
        let mut output: Vec<u8> = Vec::new();
        output.push(FORMAT_VERSION);
        output.push(
            if shorter {
                FRAME_MESSAGE_COMPRESSED
            } else {
                FRAME_MESSAGE
            },
        );
        push_bytes(&mut output, self.id.bytes().as_slice());
        push_u32(&mut output, length);
        if shorter {
            push_u32(&mut output, compressed.len() as u32);
            push_bytes(&mut output, compressed.as_slice());
            assert(output@ =~= message_frame(
                FRAME_MESSAGE_COMPRESSED,
                self.id@,
                length,
                compressed@,
            ));
        } else {
            push_u32(&mut output, length);
            push_bytes(&mut output, self.plaintext.as_slice());
            assert(output@ =~= message_frame(FRAME_MESSAGE, self.id@, length, self.plaintext@));
        }
        Ok(output)
    }

    /// Encodes the application message for transport. Every message within the limit
    /// has a frame, from which it is read back.
    pub fn encode(&self) -> (result: Result<Vec<u8>, SignalError>)
        ensures
            result is Ok <==> self@.plaintext.len() <= MAX_MESSAGE_LEN,
            match message_encoding(self@, primitives::zlib_stream(self@.plaintext)) {
                Ok(frame) => {
                    &&& result matches Ok(output)
                    &&& output@ == frame
                    &&& message_decoding(output@) == Ok::<SafeChatMessageView, SignalError>(self@)
                },
                Err(error) => result == Err::<Vec<u8>, SignalError>(error),
            },
    {
        if self.plaintext.len() > MAX_MESSAGE_LEN {
            return Err(SignalError::MessageTooLong);
        }
        let stream = zlib_compress(self.plaintext.as_slice());
        let result = self.frame(stream);
        proof {
            if result is Ok {
                assert(self@.id.len() == 16);
                lemma_message_round_trip(self@, stream->0@);
            }
        }
        result
    }

    /// Decodes and validates an application message.
    pub fn decode(input: &[u8]) -> (result: Result<SafeChatMessage, SignalError>)
        ensures
            match message_decoding(input@) {
                Ok(value) => result matches Ok(message) && message@ == value,
                Err(error) => result == Err::<SafeChatMessage, SignalError>(error),
            },
    {
        let framed = FramedMessage::split(input)?;
        let inflated = if framed.compressed {
            zlib_decompress(framed.stored.as_slice(), framed.length as u64 + 1)
        } else {
            None
        };
        framed.join(inflated)
    }
}

/// A frame is taken apart into what it was made of.
proof fn lemma_message_parts(compressed: bool, id: Seq<u8>, length: u32, stored: Seq<u8>)
    requires
        id.len() == 16,
        length <= MAX_MESSAGE_LEN,
        stored.len() <= MAX_MESSAGE_LEN,
        compressed || stored.len() == length,
    ensures
        message_parts(
            message_frame(
                if compressed {
                    FRAME_MESSAGE_COMPRESSED
                } else {
                    FRAME_MESSAGE
                },
                id,
                length,
                stored,
            ),
        ) == Ok::<MessageParts, SignalError>(MessageParts { compressed, id, length, stored }),
{
    let kind = if compressed {
        FRAME_MESSAGE_COMPRESSED
    } else {
        FRAME_MESSAGE
    };
    let frame = message_frame(kind, id, length, stored);
    bytes::lemma_be_u32(length);
    bytes::lemma_be_u32(stored.len() as u32);
    assert(frame.subrange(2, 18) =~= id);
    assert(frame.subrange(18, 22) =~= bytes::be_u32(length));
    assert(frame.subrange(22, 26) =~= bytes::be_u32(stored.len() as u32));
    assert(frame.skip(26) =~= stored);
}

/// A message is read back from its frame, whichever of the two forms was chosen,
/// when its zlib stream gives the plaintext back.
pub proof fn lemma_message_round_trip(value: SafeChatMessageView, stream: Seq<u8>)
    requires
        value.id.len() == 16,
        message_encoding(value, Some(stream)) is Ok,
        forall|limit: nat|
            value.plaintext.len() <= limit ==> #[trigger] primitives::zlib_read(stream, limit)
                == Some(value.plaintext),
    ensures
        message_decoding(message_encoding(value, Some(stream))->Ok_0) == Ok::<
            SafeChatMessageView,
            SignalError,
        >(value),
{
    let length = value.plaintext.len() as u32;
    if value.plaintext.len() >= MIN_COMPRESSIBLE_MESSAGE_LEN && stream.len()
        < value.plaintext.len() {
        lemma_message_parts(true, value.id, length, stream);
        assert(primitives::zlib_read(stream, (length + 1) as nat) == Some(value.plaintext));
    } else {
        lemma_message_parts(false, value.id, length, value.plaintext);
    }
}

/// Every plaintext within the limit has a frame when compressing succeeds, and
/// that frame is never longer than the plaintext and a header.
pub proof fn law_message_frame_bounded(value: SafeChatMessageView, stream: Seq<u8>)
    requires
        value.id.len() == 16,
        value.plaintext.len() <= MAX_MESSAGE_LEN,
    ensures
        message_encoding(value, Some(stream)) matches Ok(frame) && frame.len()
            <= MESSAGE_HEADER_LEN + value.plaintext.len(),
{
    bytes::lemma_be_u32(value.plaintext.len() as u32);
    bytes::lemma_be_u32(stream.len() as u32);
}

/// An envelope goes out in seven bytes and the ciphertext: the version of the
/// format, the mark of an envelope, how it was encrypted and how long it is. Only
/// the two ways of encrypting are passed on, and nothing over sixteen mebibytes.
pub proof fn law_envelope_is_framed(value: EnvelopeView)
    ensures
        envelope_encoding(value) is Ok <==> (value.message_type == 2 || value.message_type == 3)
            && value.ciphertext.len() <= 16_777_216,
        value.message_type != 2 && value.message_type != 3 ==> envelope_encoding(value) == Err::<
            Seq<u8>,
            SignalError,
        >(SignalError::UnsupportedCiphertextType),
        envelope_encoding(value) matches Ok(frame) ==> {
            &&& frame.len() == 7 + value.ciphertext.len()
            &&& frame[0] == 1 && frame[1] == 3 && frame[2] == value.message_type
            &&& bytes::measured_at(frame, 3, value.ciphertext)
        },
{
    if let Ok(frame) = envelope_encoding(value) {
        let front = seq![FORMAT_VERSION, FRAME_ENVELOPE, value.message_type];
        let none = Seq::<u8>::empty();
        let length = bytes::be_u32(value.ciphertext.len() as u32);
        assert(frame =~= front + ((length + value.ciphertext) + none));
        bytes::lemma_measured(frame, front, value.ciphertext, none);
    }
}

/// What is read of an envelope is what stands behind its seven bytes, and every
/// envelope is refused whose first bytes are other ones or whose length is not the
/// one it states.
pub proof fn law_envelope_is_read(input: Seq<u8>)
    ensures
        input.len() < 7 || input[0] != 1 || input[1] != 3 ==> envelope_decoding(input) == Err::<
            EnvelopeView,
            SignalError,
        >(SignalError::InvalidEnvelope),
        input.len() >= 7 && input[0] == 1 && input[1] == 3 && input[2] != 2 && input[2] != 3
            ==> envelope_decoding(input) == Err::<EnvelopeView, SignalError>(
            SignalError::UnsupportedCiphertextType,
        ),
        input.len() >= 7 && input[0] == 1 && input[1] == 3 && (input[2] == 2 || input[2] == 3)
            ==> match envelope_decoding(input) {
            Ok(value) => {
                &&& value.message_type == input[2]
                &&& value.ciphertext.len() == input.len() - 7 == bytes::number_at(input, 3)
                &&& input.len() - 7 <= 16_777_216
                &&& forall|i: int| 7 <= i < input.len() ==> value.ciphertext[i - 7] == #[trigger] input[i]
            },
            Err(error) => error == SignalError::InvalidEnvelopeLength && (input.len() - 7
                != bytes::number_at(input, 3) || input.len() - 7 > 16_777_216),
        },
{
    reveal(bytes::number_at);
    if input.len() >= 7 {
        bytes::law_numbers_are_big_endian(0, input.subrange(3, 7));
        assert(bytes::number_at(input.subrange(3, 7), 0) == bytes::number_at(input, 3));
    }
}

/// The text of an address is the name, a dot and the number of the device.
pub proof fn law_address_is_name_and_number(name: Seq<char>, device_id: u32)
    ensures
        bytes::stands_at(address_text(name, device_id), 0, name),
        address_text(name, device_id)[name.len() as int] == '.',
        text::parsed_u64(address_text(name, device_id).skip(name.len() as int + 1)) == Some(
            device_id as u64,
        ),
{
    reveal(bytes::stands_at);
    let whole = address_text(name, device_id);
    assert(whole.subrange(0, name.len() as int) =~= name);
    assert(whole.skip(name.len() as int + 1) =~= text::decimal(device_id as nat));
    text::law_unsigned_decimal_round_trip(device_id as u64);
}

/// A message is written as its version, how its text is kept, its ID, the length of
/// the text, the length of what is kept, and what is kept. The text is kept as it is
/// unless it has at least 256 bytes and is shorter compressed.
pub proof fn law_message_is_framed(value: SafeChatMessageView, stream: Seq<u8>)
    requires
        value.id.len() == 16,
    ensures
        value.plaintext.len() > 8_388_608 ==> message_encoding(value, Some(stream)) == Err::<
            Seq<u8>,
            SignalError,
        >(SignalError::MessageTooLong),
        value.plaintext.len() <= 8_388_608 ==> {
            let kept = if value.plaintext.len() >= 256 && stream.len() < value.plaintext.len() {
                stream
            } else {
                value.plaintext
            };
            &&& message_encoding(value, Some(stream)) matches Ok(frame)
            &&& frame.len() == 26 + kept.len()
            &&& frame[0] == 1
            &&& frame[1] == (if value.plaintext.len() >= 256 && stream.len()
                < value.plaintext.len() {
                5u8
            } else {
                4u8
            })
            &&& bytes::stands_at(frame, 2, value.id)
            &&& bytes::number_at(frame, 18) == value.plaintext.len()
            &&& bytes::measured_at(frame, 22, kept)
        },
{
    if value.plaintext.len() <= 8_388_608 {
        let compressed = value.plaintext.len() >= 256 && stream.len() < value.plaintext.len();
        let kept = if compressed {
            stream
        } else {
            value.plaintext
        };
        let frame = message_encoding(value, Some(stream))->Ok_0;
        let front = seq![
            FORMAT_VERSION,
            if compressed {
                FRAME_MESSAGE_COMPRESSED
            } else {
                FRAME_MESSAGE
            },
        ];
        let length = bytes::be_u32(value.plaintext.len() as u32);
        let measured = bytes::be_u32(kept.len() as u32) + kept;
        let none = Seq::<u8>::empty();
        assert(frame =~= front + (value.id + (length + measured)));
        bytes::lemma_stands(frame, front, value.id, length + measured);
        assert(frame =~= (front + value.id) + (length + measured));
        bytes::lemma_number_stands(
            frame,
            front + value.id,
            value.plaintext.len() as u32,
            measured,
        );
        assert(frame =~= (front + value.id + length) + (measured + none));
        bytes::lemma_measured(frame, front + value.id + length, kept, none);
    }
}

/// What is read of a message is what stands at those places, and what is refused has
/// another version, another mark, a length that is not its own, or too much in it.
pub proof fn law_message_is_read(input: Seq<u8>)
    ensures
        message_parts(input) is Ok <==> {
            &&& input.len() >= 26
            &&& input[0] == 1
            &&& input[1] == 4 || input[1] == 5
            &&& input.len() - 26 == bytes::number_at(input, 22)
            &&& bytes::number_at(input, 18) <= 8_388_608
            &&& bytes::number_at(input, 22) <= 8_388_608
            &&& input[1] == 4 ==> bytes::number_at(input, 18) == bytes::number_at(input, 22)
        },
        input.len() < 2 ==> message_parts(input) == Err::<MessageParts, SignalError>(
            SignalError::TruncatedMessage,
        ),
        input.len() >= 2 && input[0] != 1 ==> message_parts(input) == Err::<
            MessageParts,
            SignalError,
        >(SignalError::UnsupportedMessageVersion),
        input.len() >= 2 && input[0] == 1 && input[1] != 4 && input[1] != 5 ==> message_parts(input)
            == Err::<MessageParts, SignalError>(SignalError::UnsupportedMessageFrame),
        2 <= input.len() < 26 && input[0] == 1 ==> {
            &&& input[1] == 4 ==> message_parts(input) == Err::<MessageParts, SignalError>(
                SignalError::TruncatedMessage,
            )
            &&& input[1] == 5 ==> message_parts(input) == Err::<MessageParts, SignalError>(
                SignalError::TruncatedCompressedMessage,
            )
        },
        input.len() >= 26 && input[0] == 1 ==> {
            &&& input[1] == 4 && message_parts(input) is Err ==> message_parts(input) == Err::<
                MessageParts,
                SignalError,
            >(SignalError::MessageTooLong)
            &&& input[1] == 5 && message_parts(input) is Err ==> message_parts(input) == Err::<
                MessageParts,
                SignalError,
            >(SignalError::InvalidCompressedLength)
        },
        message_parts(input) matches Ok(parts) ==> {
            &&& parts.compressed == (input[1] == 5)
            &&& bytes::stands_at(input, 2, parts.id) && parts.id.len() == 16
            &&& parts.length == bytes::number_at(input, 18)
            &&& bytes::stands_at(input, 26, parts.stored) && parts.stored.len() == input.len() - 26
        },
{
    reveal(bytes::stands_at);
    reveal(bytes::number_at);
    if input.len() >= 26 {
        bytes::law_numbers_are_big_endian(0, input.subrange(18, 22));
        bytes::law_numbers_are_big_endian(0, input.subrange(22, 26));
        assert(bytes::number_at(input.subrange(18, 22), 0) == bytes::number_at(input, 18));
        assert(bytes::number_at(input.subrange(22, 26), 0) == bytes::number_at(input, 22));
        assert(input.subrange(26, input.len() as int) =~= input.skip(26));
    }
}

/// A text that was kept as it is comes out as it is. One that was compressed comes
/// out as what it was inflated to, where that has the length it should have.
pub proof fn law_message_is_put_together(parts: MessageParts, plaintext: Seq<u8>)
    ensures
        !parts.compressed ==> (message_from_parts(parts, None) matches Ok(value) && value.id
            == parts.id && value.plaintext == parts.stored),
        !parts.compressed ==> message_from_parts(parts, Some(plaintext)) == message_from_parts(
            parts,
            None,
        ),
        parts.compressed ==> message_from_parts(parts, None) == Err::<
            SafeChatMessageView,
            SignalError,
        >(SignalError::DecompressionFailed),
        parts.compressed && plaintext.len() == parts.length ==> (message_from_parts(
            parts,
            Some(plaintext),
        ) matches Ok(value) && value.id == parts.id && value.plaintext == plaintext),
        parts.compressed && plaintext.len() != parts.length ==> message_from_parts(
            parts,
            Some(plaintext),
        ) == Err::<SafeChatMessageView, SignalError>(SignalError::DecompressedLengthMismatch),
{
}

} // verus!
