//! Carrier-neutral messages and the boundaries that carry them.
use vstd::prelude::*;

use crate::primitives;
use crate::primitives::{base64_decode, base64_encode};
use crate::protocol;
use crate::text;
use crate::text::trim;

verus! {

/// A carrier-neutral message received from a transport.
///
/// `transport_id` is opaque to the messaging layer. HTTP relays use a server
/// row ID, while another transport can use a connection-local or
/// protocol-defined identifier.
#[derive(Clone, Debug, PartialEq, Eq)]
pub struct TransportMessage {
    pub transport_id: String,
    pub sender: String,
    pub sender_address: Option<String>,
    pub message_id: String,
    pub ciphertext: Vec<u8>,
    pub accepted_at: u64,
    pub expires_at: Option<u64>,
}

/// The contents of a [`TransportMessage`].
#[verifier::ext_equal]
pub struct TransportMessageView {
    pub transport_id: Seq<char>,
    pub sender: Seq<char>,
    pub sender_address: Option<Seq<char>>,
    pub message_id: Seq<char>,
    pub ciphertext: Seq<u8>,
    pub accepted_at: u64,
    pub expires_at: Option<u64>,
}

impl View for TransportMessage {
    type V = TransportMessageView;

    open spec fn view(&self) -> TransportMessageView {
        TransportMessageView {
            transport_id: self.transport_id@,
            sender: self.sender@,
            sender_address: protocol::optional_text(self.sender_address),
            message_id: self.message_id@,
            ciphertext: self.ciphertext@,
            accepted_at: self.accepted_at,
            expires_at: self.expires_at,
        }
    }
}

impl TransportMessage {
    pub fn new(
        transport_id: String,
        sender: String,
        sender_address: Option<String>,
        message_id: String,
        ciphertext: Vec<u8>,
        accepted_at: u64,
        expires_at: Option<u64>,
    ) -> (message: TransportMessage)
        ensures
            message@ == (TransportMessageView {
                transport_id: transport_id@,
                sender: sender@,
                sender_address: protocol::optional_text(sender_address),
                message_id: message_id@,
                ciphertext: ciphertext@,
                accepted_at,
                expires_at,
            }),
    {
        TransportMessage {
            transport_id,
            sender,
            sender_address,
            message_id,
            ciphertext,
            accepted_at,
            expires_at,
        }
    }
}

/// How far a sent message has come.
#[derive(Clone, Copy, Debug, PartialEq, Eq, Structural)]
pub enum DeliveryStatus {
    Sent,
    Read,
}

/// A carrier-neutral request to establish a private conversation.
#[derive(Clone, Debug, PartialEq, Eq)]
pub struct ContactRequest {
    pub request_id: String,
    pub sender_id: String,
    pub sender_name: String,
    pub sender_fingerprint: String,
    pub bundle: Vec<u8>,
}

impl ContactRequest {
    pub fn new(
        request_id: String,
        sender_id: String,
        sender_name: String,
        sender_fingerprint: String,
        bundle: Vec<u8>,
    ) -> (request: ContactRequest)
        ensures
            request.request_id@ == request_id@,
            request.sender_id@ == sender_id@,
            request.sender_name@ == sender_name@,
            request.sender_fingerprint@ == sender_fingerprint@,
            request.bundle@ == bundle@,
    {
        ContactRequest { request_id, sender_id, sender_name, sender_fingerprint, bundle }
    }
}

/// Why a transport could not do its work.
#[derive(Clone, Debug, PartialEq, Eq)]
pub struct TransportError {
    pub message: String,
}

/// Boundary for contact discovery and approval. Implementations own only
/// transport delivery; the user interface owns prompts and the Signal layer owns
/// trust.
pub trait ContactTransport {
    fn request_contact(&mut self, recipient: &str, request: &ContactRequest) -> Result<
        (),
        TransportError,
    >;

    fn pending_contacts(&mut self) -> Result<Vec<ContactRequest>, TransportError>;

    fn accept_contact(&mut self, request_id: &str) -> Result<ContactRequest, TransportError>;

    fn reject_contact(&mut self, request_id: &str) -> Result<(), TransportError>;
}

/// Common network/message-carrier boundary.
///
/// Implementations transport already-encrypted envelopes. They do not perform
/// Signal encryption, identity verification, or history storage.
pub trait MessageTransport {
    fn send(
        &mut self,
        recipient: &str,
        message_id: &str,
        ciphertext: &[u8],
        expires_at: Option<u64>,
    ) -> Result<(), TransportError>;

    fn receive(&mut self, cursor: i64) -> Result<Vec<TransportMessage>, TransportError>;

    fn acknowledge(&mut self, message: &TransportMessage) -> Result<(), TransportError>;

    fn status(&mut self, message_id: &str) -> Result<DeliveryStatus, TransportError>;
}

// ---------------------------------------------------------------------------
// Text channels
// ---------------------------------------------------------------------------

/// What a text channel was asked to read.
#[derive(Clone, Copy, Debug, PartialEq, Eq, Structural)]
pub enum TextError {
    InvalidMessage,
    InvalidBundle,
    InvalidRecovery,
}

impl TextError {
    /// The error in words.
    pub fn message(self) -> (message: &'static str)
        ensures
            message@ == (match self {
                TextError::InvalidMessage => "invalid safechat text message encoding"@,
                TextError::InvalidBundle => "invalid safechat text bundle encoding"@,
                TextError::InvalidRecovery => "invalid safechat recovery encoding"@,
            }),
    {
        match self {
            TextError::InvalidMessage => "invalid safechat text message encoding",
            TextError::InvalidBundle => "invalid safechat text bundle encoding",
            TextError::InvalidRecovery => "invalid safechat recovery encoding",
        }
    }
}

/// Bytes as a line of text: their Base64 encoding and a line end.
pub open spec fn text_line(bytes: Seq<u8>) -> Seq<char> {
    primitives::base64_url(bytes).push('\n')
}

/// The bytes that a text stands for, whatever white space surrounds it.
pub open spec fn line_bytes(line: Seq<char>) -> Option<Seq<u8>> {
    primitives::base64_bytes(text::trimmed(line))
}

/// The encoding of some bytes neither opens nor ends in white space.
pub proof fn lemma_encoding_trimmed(bytes: Seq<u8>, space: Seq<char>)
    requires
        forall|i: int| 0 <= i < space.len() ==> text::is_white_space(space[i]),
    ensures
        text::trimmed(primitives::base64_url(bytes) + space) == primitives::base64_url(bytes),
{
    let encoded = primitives::base64_url(bytes);
    primitives::lemma_base64_alphabet(bytes);
    if encoded.len() > 0 {
        assert(primitives::is_base64_char(encoded[0]));
        assert(primitives::is_base64_char(encoded[encoded.len() - 1]));
    }
    text::lemma_trim_end(encoded, space);
}

/// Bytes that were written to a text channel are read back from it.
pub proof fn law_text_channel_round_trip(bytes: Seq<u8>)
    ensures
        line_bytes(text_line(bytes)) == Some(bytes),
{
    assert(text_line(bytes) =~= primitives::base64_url(bytes) + seq!['\n']);
    lemma_encoding_trimmed(bytes, seq!['\n']);
    primitives::law_base64_round_trip(bytes);
}

fn write_line(bytes: &[u8]) -> (line: String)
    ensures
        line@ == text_line(bytes@),
{
    let mut line = base64_encode(bytes);
    line.push('\n');
    line
}

fn read_line(line: &str) -> (bytes: Option<Vec<u8>>)
    ensures
        match line_bytes(line@) {
            Some(value) => bytes matches Some(result) && result@ == value,
            None => bytes is None,
        },
{
    primitives::b64decode(trim(line).as_str())
}

/// The text of an envelope as it is kept and shown: its encoding alone.
pub(crate) fn envelope_text(envelope: &[u8]) -> (result: String)
    ensures
        result@ == primitives::base64_url(envelope@),
{
    let line = write_line(envelope);
    proof {
        assert(text_line(envelope@) =~= primitives::base64_url(envelope@) + seq!['\n']);
        lemma_encoding_trimmed(envelope@, seq!['\n']);
    }
    trim(line.as_str())
}

/// Reference transport for the protocol envelope.
///
/// This deliberately knows nothing about encryption or media. It gives the
/// session protocol a deterministic, asynchronous message representation while
/// carrier adapters are developed independently.
pub struct TextTransport;

impl TextTransport {
    pub fn encode(&self, envelope: &[u8]) -> (line: String)
        ensures
            line@ == text_line(envelope@),
    {
        write_line(envelope)
    }

    pub fn decode(&self, message: &str) -> (result: Result<Vec<u8>, TextError>)
        ensures
            match line_bytes(message@) {
                Some(value) => result matches Ok(bytes) && bytes@ == value,
                None => result == Err::<Vec<u8>, TextError>(TextError::InvalidMessage),
            },
    {
        match read_line(message) {
            Some(bytes) => Ok(bytes),
            None => Err(TextError::InvalidMessage),
        }
    }
}

/// Text representation for public prekey bundles exchanged through text-only
/// channels. This is distinct from encrypted message framing.
pub struct BundleTransport;

impl BundleTransport {
    pub fn encode(&self, bundle: &[u8]) -> (line: String)
        ensures
            line@ == text_line(bundle@),
    {
        write_line(bundle)
    }

    pub fn decode(&self, message: &str) -> (result: Result<Vec<u8>, TextError>)
        ensures
            match line_bytes(message@) {
                Some(value) => result matches Ok(bytes) && bytes@ == value,
                None => result == Err::<Vec<u8>, TextError>(TextError::InvalidBundle),
            },
    {
        match read_line(message) {
            Some(bytes) => Ok(bytes),
            None => Err(TextError::InvalidBundle),
        }
    }
}

/// Text representation for signed identity recovery/revocation records.
pub struct RecoveryTransport;

impl RecoveryTransport {
    pub fn encode(&self, record: &[u8]) -> (line: String)
        ensures
            line@ == text_line(record@),
    {
        write_line(record)
    }

    pub fn decode(&self, message: &str) -> (result: Result<Vec<u8>, TextError>)
        ensures
            match line_bytes(message@) {
                Some(value) => result matches Ok(bytes) && bytes@ == value,
                None => result == Err::<Vec<u8>, TextError>(TextError::InvalidRecovery),
            },
    {
        match read_line(message) {
            Some(bytes) => Ok(bytes),
            None => Err(TextError::InvalidRecovery),
        }
    }
}

/// A line is the encoded bytes with a line end behind, and it does not matter what
/// white space stands behind the encoded bytes when it is read.
pub proof fn law_line_is_text_and_line_end(bytes: Seq<u8>, space: Seq<char>)
    requires
        forall|i: int| 0 <= i < space.len() ==> text::is_white_space(space[i]),
    ensures
        text_line(bytes).len() == primitives::base64_url(bytes).len() + 1,
        text_line(bytes).last() == '\n',
        text_line(bytes).drop_last() == primitives::base64_url(bytes),
        line_bytes(primitives::base64_url(bytes) + space) == Some(bytes),
{
    assert(text_line(bytes).drop_last() =~= primitives::base64_url(bytes));
    lemma_encoding_trimmed(bytes, space);
    primitives::law_base64_round_trip(bytes);
}

/// A line that stands for no bytes is refused.
pub proof fn law_other_lines_are_refused(line: Seq<char>)
    requires
        forall|value: Seq<u8>| #[trigger] primitives::base64_url(value) != text::trimmed(line),
    ensures
        line_bytes(line) is None,
{
}

} // verus!
