//! A disposable client that tries a relay out: it registers, and then sends one
//! known message or waits for it.
use vstd::prelude::*;
use vstd::utf8::*;

use crate::bytes::{copy_bytes, same_bytes};
use crate::primitives;
use crate::primitives::{b64, b64decode};
use crate::protocol;
use crate::protocol::{
    decode_messages, encode_submit, Message, MessageView, ProtocolError, Submit, SubmitView,
};
use crate::relay_client::{ClientError, RegistrationDraft};
use crate::relay_signing;
use crate::relay_signing::write_register_payload;
use crate::rows;
use crate::text;
use crate::text::{decimal_text, trim_end_char};

verus! {

/// What the message says.
pub const SMOKE_PAYLOAD: &'static str = "encrypted-smoke-payload";

/// How often the relay is asked for the message.
pub const MAX_POLLS: usize = 120;

/// For how many milliseconds the client waits before it asks again.
pub const POLL_DELAY: u64 = 250;

/// The address of a path, whether or not the relay's ends in a slash.
pub fn smoke_url(base: &str, path: &str) -> (url: String)
    ensures
        url@ == text::without_end(base@, '/') + path@,
{
    let mut url = trim_end_char(base, '/');
    url.append(path);
    url
}

/// The fingerprint that stands for a client.
pub fn smoke_fingerprint(client_id: &str) -> (fingerprint: String)
    ensures
        fingerprint@ == "smoke-"@ + client_id@,
{
    let mut fingerprint = "smoke-".to_owned();
    fingerprint.append(client_id);
    fingerprint
}

/// The address of a client's device.
pub open spec fn smoke_address(client_id: Seq<char>) -> Seq<char> {
    client_id + ".1"@
}

/// The bytes that stand for a client's bundle.
pub open spec fn smoke_bundle(client_id: Seq<char>) -> Seq<u8> {
    encode_utf8("opaque-smoke-bundle-"@ + client_id)
}

/// Prepares the registration of a client that has been challenged.
pub fn smoke_registration(client_id: &str, challenge: &str) -> (result: Result<
    RegistrationDraft,
    ClientError,
>)
    ensures
        match primitives::base64_bytes(challenge@) {
            None => result matches Err(error) && error == ClientError::InvalidBase64,
            Some(answer) => result matches Ok(draft) && draft.device_address@ == smoke_address(
                client_id@,
            ) && draft.bundle@ == primitives::base64_url(smoke_bundle(client_id@))
                && draft.payload@ == relay_signing::register_payload(
                client_id@,
                smoke_address(client_id@),
                smoke_bundle(client_id@),
                answer,
            ),
        },
{
    let answer = match b64decode(challenge) {
        Some(answer) => answer,
        None => return Err(ClientError::InvalidBase64),
    };
    let mut address = client_id.to_owned();
    address.append(".1");
    let mut bundle = "opaque-smoke-bundle-".to_owned();
    bundle.append(client_id);
    let payload = write_register_payload(
        client_id,
        address.as_str(),
        bundle.as_str().as_bytes(),
        answer.as_slice(),
    );
    Ok(
        RegistrationDraft {
            device_address: address,
            bundle: b64(bundle.as_str().as_bytes()),
            payload,
        },
    )
}

/// The ID of the message that a client sends.
pub open spec fn smoke_message_id(client_id: Seq<char>, now: u64) -> Seq<char> {
    "smoke-"@ + client_id + "-"@ + text::decimal(now as nat)
}

/// The message that a client sends: its ID, and what is handed to the relay.
pub fn smoke_submit(client_id: &str, recipient: &str, now: u64) -> (result: Result<
    (String, Vec<u8>),
    ProtocolError,
>)
    ensures
        match protocol::submit_encoding(
            SubmitView {
                recipient: recipient@,
                message_id: smoke_message_id(client_id@, now),
                expires_at: None,
                ciphertext: encode_utf8(SMOKE_PAYLOAD@),
            },
        ) {
            Ok(frame) => result matches Ok(sent) && sent.0@ == smoke_message_id(client_id@, now)
                && sent.1@ == frame,
            Err(error) => result matches Err(found) && found == error,
        },
{
    let mut message_id = "smoke-".to_owned();
    message_id.append(client_id);
    message_id.append("-");
    message_id.append(decimal_text(now).as_str());
    match encode_submit(
        &Submit::new(
            recipient.to_owned(),
            message_id.clone(),
            None,
            copy_bytes(SMOKE_PAYLOAD.as_bytes()),
        ),
    ) {
        Ok(body) => Ok((message_id, body)),
        Err(error) => Err(error),
    }
}

/// A message that was found.
#[derive(Clone, Debug, PartialEq, Eq)]
pub struct BinaryMessageMetadata {
    pub server_id: i64,
    pub message_id: String,
}

/// The message that a client waits for.
pub open spec fn is_smoke_message() -> spec_fn(MessageView) -> bool {
    |message: MessageView| message.ciphertext == encode_utf8(SMOKE_PAYLOAD@)
}

/// The message in an answer that a client waits for, if it is there.
pub open spec fn smoke_found(input: Seq<u8>) -> Option<MessageView> {
    match protocol::messages_decoding(input) {
        Err(_) => None,
        Ok(messages) => {
            let index = rows::first_at(messages, is_smoke_message(), 0);
            if index < messages.len() {
                Some(messages[index])
            } else {
                None
            }
        },
    }
}

/// Looks for the message in an answer.
pub fn parse_binary_message(input: &[u8]) -> (result: Option<BinaryMessageMetadata>)
    ensures
        match smoke_found(input@) {
            Some(message) => result matches Some(found) && found.server_id == message.server_id
                && found.message_id@ == message.message_id,
            None => result is None,
        },
{
    let messages: Vec<Message> = match decode_messages(input) {
        Ok(messages) => messages,
        Err(_) => return None,
    };
    let ghost all = protocol::message_views(messages@);
    let mut index: usize = 0;
    while index < messages.len()
        invariant
            index <= messages@.len(),
            all == protocol::message_views(messages@),
            rows::first_at(all, is_smoke_message(), 0) == rows::first_at(
                all,
                is_smoke_message(),
                index as int,
            ),
        ensures
            rows::first_at(all, is_smoke_message(), 0) == index,
            index <= messages@.len(),
        decreases messages@.len() - index,
    {
        assert(all[index as int] == messages@[index as int]@);
        if same_bytes(messages[index].ciphertext.as_slice(), SMOKE_PAYLOAD.as_bytes()) {
            break;
        }
        index += 1;
    }
    if index < messages.len() {
        assert(all[index as int] == messages@[index as int]@);
        Some(
            BinaryMessageMetadata {
                server_id: messages[index].server_id,
                message_id: messages[index].message_id.clone(),
            },
        )
    } else {
        None
    }
}

/// What a client does next while it waits.
#[derive(Debug, PartialEq, Eq)]
pub enum PollAction {
    /// It asks again.
    Ask,
    /// It waits, and then asks again.
    Wait(u64),
    /// It acknowledges the message.
    Acknowledge(BinaryMessageMetadata),
    /// It stops: the message was not delivered.
    GiveUp,
}

/// A client that waits for the message.
#[derive(Debug)]
pub struct SmokePoll {
    /// How often the relay has answered or failed to.
    pub polls: usize,
}

impl SmokePoll {
    /// The relay has not been asked too often.
    pub open spec fn wf(self) -> bool {
        self.polls < MAX_POLLS
    }

    pub fn new() -> (poll: SmokePoll)
        ensures
            poll.wf(),
            poll.polls == 0,
    {
        SmokePoll { polls: 0 }
    }

    /// Takes what the relay has answered, or that it has not.
    pub fn step(&mut self, answer: Option<&[u8]>) -> (action: PollAction)
        requires
            old(self).wf(),
        ensures
            final(self).polls == old(self).polls + 1,
            match answer {
                Some(input) if smoke_found(input@) is Some => action matches
                    PollAction::Acknowledge(found) && found.server_id == (smoke_found(
                    input@,
                )->0).server_id && found.message_id@ == (smoke_found(input@)->0).message_id,
                _ => if final(self).wf() {
                    action == (if answer is Some {
                        PollAction::Wait(POLL_DELAY)
                    } else {
                        PollAction::Ask
                    })
                } else {
                    action == PollAction::GiveUp
                },
            },
    {
        self.polls = self.polls + 1;
        let heard = answer.is_some();
        if let Some(input) = answer {
            if let Some(found) = parse_binary_message(input) {
                return PollAction::Acknowledge(found);
            }
        }
        if self.polls == MAX_POLLS {
            PollAction::GiveUp
        } else if heard {
            PollAction::Wait(POLL_DELAY)
        } else {
            PollAction::Ask
        }
    }
}

/// A message that was sent is found once it is delivered: where the relay hands out
/// messages and one of them is what a client sends, the waiting client takes the
/// first such message.
pub proof fn law_smoke_message_is_found(frame: Seq<u8>, messages: Seq<MessageView>, index: int)
    requires
        protocol::messages_decoding(frame) == Ok::<Seq<MessageView>, ProtocolError>(messages),
        0 <= index < messages.len(),
        messages[index].ciphertext == encode_utf8(SMOKE_PAYLOAD@),
        forall|i: int|
            0 <= i < index ==> (#[trigger] messages[i]).ciphertext != encode_utf8(SMOKE_PAYLOAD@),
    ensures
        smoke_found(frame) == Some(messages[index]),
{
    rows::lemma_first_at(messages, is_smoke_message(), 0);
    let first = rows::first_at(messages, is_smoke_message(), 0);
    assert(is_smoke_message()(messages[index]));
    if first < index {
        assert(is_smoke_message()(messages[first]));
    }
}

} // verus!
