//! What the command line does with bundles and messages in files.
use vstd::prelude::*;
use vstd::utf8::*;

use crate::bundle;
use crate::bundle::{BundleView, SignalPreKeyBundle};
use crate::bytes::copy_bytes;
use crate::primitives;
use crate::signal::SignalError;
use crate::text;
use crate::text::{same_text, utf8_string};
use crate::transport;
use crate::transport::{BundleTransport, TextTransport};

verus! {

/// Why a file cannot be used.
#[derive(Clone, Copy, Debug, PartialEq, Eq, Structural)]
pub enum CommandError {
    /// A file that is said to hold text does not.
    NotText,
    /// The text is not Base64.
    InvalidText,
    /// The bytes are no bundle.
    InvalidBundle(SignalError),
    /// The fingerprint belongs to another bundle.
    FingerprintMismatch,
}

/// What a file holds for some bytes: the bytes, or their text.
pub open spec fn file_contents(bytes: Seq<u8>, base64: bool) -> Seq<u8> {
    if base64 {
        encode_utf8(transport::text_line(bytes))
    } else {
        bytes
    }
}

/// The bytes that a file stands for.
pub open spec fn file_bytes(contents: Seq<u8>, base64: bool) -> Result<Seq<u8>, CommandError> {
    if !base64 {
        Ok(contents)
    } else if !valid_utf8(contents) {
        Err(CommandError::NotText)
    } else {
        match transport::line_bytes(decode_utf8(contents)) {
            Some(bytes) => Ok(bytes),
            None => Err(CommandError::InvalidText),
        }
    }
}

/// A file stands for the bytes that were written to it.
pub proof fn law_file_round_trip(bytes: Seq<u8>, base64: bool)
    ensures
        file_bytes(file_contents(bytes, base64), base64) == Ok::<Seq<u8>, CommandError>(bytes),
{
    let line = transport::text_line(bytes);
    encode_utf8_valid_utf8(line);
    encode_utf8_decode_utf8(line);
    transport::law_text_channel_round_trip(bytes);
}

/// What is written to the file of a bundle.
pub fn bundle_output(encoded: Vec<u8>, base64: bool) -> (contents: Vec<u8>)
    ensures
        contents@ == file_contents(encoded@, base64),
{
    if base64 {
        let line = BundleTransport.encode(encoded.as_slice());
        copy_bytes(line.as_str().as_bytes())
    } else {
        encoded
    }
}

/// What is written to the file of a message.
pub fn envelope_output(envelope: Vec<u8>, base64: bool) -> (contents: Vec<u8>)
    ensures
        contents@ == file_contents(envelope@, base64),
{
    if base64 {
        let line = TextTransport.encode(envelope.as_slice());
        copy_bytes(line.as_str().as_bytes())
    } else {
        envelope
    }
}

/// The message in a file.
pub fn envelope_input(contents: Vec<u8>, base64: bool) -> (result: Result<Vec<u8>, CommandError>)
    ensures
        match file_bytes(contents@, base64) {
            Ok(bytes) => result matches Ok(envelope) && envelope@ == bytes,
            Err(fault) => result matches Err(error) && error == fault,
        },
{
    if !base64 {
        return Ok(contents);
    }
    match utf8_string(contents) {
        None => Err(CommandError::NotText),
        Some(line) => match TextTransport.decode(line.as_str()) {
            Ok(envelope) => Ok(envelope),
            Err(_) => Err(CommandError::InvalidText),
        },
    }
}

/// The bundle in a file.
pub open spec fn file_bundle(contents: Seq<u8>, base64: bool) -> Result<BundleView, CommandError> {
    match file_bytes(contents, base64) {
        Err(error) => Err(error),
        Ok(bytes) => match bundle::bundle_decoding(bytes) {
            Ok(value) => Ok(value),
            Err(error) => Err(CommandError::InvalidBundle(error)),
        },
    }
}

/// The bundle in a file, if it has the fingerprint that was verified. The texts must
/// be the same to the letter.
pub fn trusted_bundle(contents: Vec<u8>, base64: bool, fingerprint: &str) -> (result: Result<
    SignalPreKeyBundle,
    CommandError,
>)
    ensures
        match file_bundle(contents@, base64) {
            Err(fault) => result matches Err(error) && error == fault,
            Ok(value) => if text::hex(value.identity_key) == fingerprint@ {
                result matches Ok(bundle) && bundle@ == value
            } else {
                result matches Err(error) && error == CommandError::FingerprintMismatch
            },
        },
{
    let bytes = envelope_input(contents, base64)?;
    match SignalPreKeyBundle::decode(bytes.as_slice()) {
        Err(error) => Err(CommandError::InvalidBundle(error)),
        Ok(bundle) => {
            if same_text(bundle.fingerprint().as_str(), fingerprint) {
                Ok(bundle)
            } else {
                Err(CommandError::FingerprintMismatch)
            }
        },
    }
}

/// The bytes of a bundle in a file of either form: text where it can be read as
/// such.
pub open spec fn either_form(contents: Seq<u8>) -> Seq<u8> {
    match file_bytes(contents, true) {
        Ok(bytes) => bytes,
        Err(_) => contents,
    }
}

/// Reads the bytes of a bundle in a file of either form.
pub fn read_bundle_bytes(contents: Vec<u8>) -> (bytes: Vec<u8>)
    ensures
        bytes@ == either_form(contents@),
{
    match utf8_string(copy_bytes(contents.as_slice())) {
        None => contents,
        Some(line) => match BundleTransport.decode(line.as_str()) {
            Ok(bytes) => bytes,
            Err(_) => contents,
        },
    }
}

/// What is written as text is the encoded bytes and a line end, and what is not
/// written as text is the bytes as they are.
pub proof fn law_file_is_text_or_bytes(bytes: Seq<u8>)
    ensures
        file_contents(bytes, false) == bytes,
        decode_utf8(file_contents(bytes, true)) == primitives::base64_url(bytes) + seq!['\n'],
        valid_utf8(file_contents(bytes, true)),
{
    let line = transport::text_line(bytes);
    encode_utf8_valid_utf8(line);
    encode_utf8_decode_utf8(line);
    assert(line =~= primitives::base64_url(bytes) + seq!['\n']);
}

/// A file is taken in either form: what reads as text gives the bytes that it stands
/// for, and anything else is taken as it is.
pub proof fn law_either_form_is_taken(bytes: Seq<u8>, contents: Seq<u8>)
    ensures
        either_form(file_contents(bytes, true)) == bytes,
        !valid_utf8(contents) ==> either_form(contents) == contents && file_bytes(contents, true)
            == Err::<Seq<u8>, CommandError>(CommandError::NotText),
        valid_utf8(contents) && (forall|value: Seq<u8>| #[trigger]
            primitives::base64_url(value) != text::trimmed(decode_utf8(contents)))
            ==> either_form(contents) == contents && file_bytes(contents, true) == Err::<
            Seq<u8>,
            CommandError,
        >(CommandError::InvalidText),
        file_bytes(contents, false) == Ok::<Seq<u8>, CommandError>(contents),
{
    law_file_round_trip(bytes, true);
}

} // verus!
