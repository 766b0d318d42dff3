//! The relay's mailboxes: taking messages, handing them out, and acknowledging them.
use vstd::prelude::*;
use vstd::utf8::*;

use crate::bytes;
use crate::bytes::copy_bytes;
use crate::primitives;
use crate::primitives::b64;
use crate::protocol;
use crate::protocol::{MessageView, ProtocolError, Submit, SubmitView, MAX_MESSAGE_ID_BYTES};
use crate::relay_http;
use crate::relay_http::{
    bad_request, encode_binary_messages, internal, not_found, validate_json_accept, validate_text,
    ApiError, ErrorView, MessageResponse, RequestHeaders, ResponseView,
};
use crate::relay_store;
use crate::relay_store::{DeviceView, MailView, MessageRow, RelayStore, StoreView, MAX_BATCH, MAX_TIME};
use crate::rows;
use crate::text::same_text;
use crate::timestamps;

verus! {

// ---------------------------------------------------------------------------
// Messages
// ---------------------------------------------------------------------------

/// A number as it was before it was kept with a sign, bit for bit.
pub open spec fn unsigned(value: i64) -> u64 {
    #[verifier::truncate]
    (value as u64)
}

/// A time limit as a row keeps it.
pub open spec fn kept_limit(expires_at: Option<u64>) -> Option<i64> {
    match expires_at {
        Some(limit) => Some(timestamps::signed(limit)),
        None => None,
    }
}

/// A time limit as it is handed out.
pub open spec fn shown_limit(expires_at: Option<i64>) -> Option<u64> {
    match expires_at {
        Some(limit) => Some(unsigned(limit)),
        None => None,
    }
}

/// A message as it is handed out.
pub open spec fn handed_out(message: MailView, sender_address: Option<Seq<char>>) -> ResponseView {
    ResponseView {
        server_id: message.server_id,
        sender: message.sender,
        sender_address,
        message_id: message.message_id,
        ciphertext: primitives::base64_url(message.ciphertext),
        accepted_at: unsigned(message.accepted_at),
        expires_at: shown_limit(message.expires_at),
    }
}

/// The message that a sender has for a recipient under an ID.
pub open spec fn is_same_message(
    sender: Seq<char>,
    recipient: Seq<char>,
    message_id: Seq<char>,
) -> spec_fn(MailView) -> bool {
    |message: MailView|
        message.sender == sender && message.recipient == recipient && message.message_id
            == message_id
}

/// A message that a sender has under an ID, for whomever.
pub open spec fn is_sent_message(sender: Seq<char>, message_id: Seq<char>) -> spec_fn(
    MailView,
) -> bool {
    |message: MailView| message.sender == sender && message.message_id == message_id
}

/// The message with a number in a recipient's mailbox.
pub open spec fn is_numbered_message(server_id: i64, recipient: Seq<char>) -> spec_fn(
    MailView,
) -> bool {
    |message: MailView| message.server_id == server_id && message.recipient == recipient
}

/// A message that a recipient has not seen yet.
pub open spec fn is_waiting(recipient: Seq<char>, cursor: i64) -> spec_fn(MailView) -> bool {
    |message: MailView|
        message.recipient == recipient && message.server_id > cursor && message.acknowledged_at
            is None
}

/// A message whose time has not run out.
pub open spec fn is_live(now: i64) -> spec_fn(MailView) -> bool {
    |message: MailView| message.expires_at is None || message.expires_at->0 > now
}

/// A message that the relay takes.
pub open spec fn new_message(
    s: StoreView,
    sender: Seq<char>,
    recipient: Seq<char>,
    submit: SubmitView,
    now: u64,
) -> MailView {
    MailView {
        server_id: s.next_id,
        sender,
        recipient,
        message_id: submit.message_id,
        ciphertext: submit.ciphertext,
        accepted_at: now as i64,
        expires_at: kept_limit(submit.expires_at),
        acknowledged_at: None,
    }
}

/// An answer with messages, or the error in its place.
pub open spec fn frame_answer(messages: Seq<ResponseView>) -> Result<Seq<u8>, ErrorView> {
    match relay_http::messages_answer(messages) {
        Some(frame) => Ok(frame),
        None => Err(relay_http::is_internal()),
    }
}

/// What comes of a message that a device sends: a recipient that is not there is
/// refused, a message that is there already is handed out as it is, and any other
/// becomes the last of the messages.
pub open spec fn send_step(s: StoreView, sender: Seq<char>, submit: SubmitView, now: u64) -> (
    StoreView,
    Result<Seq<u8>, ErrorView>,
) {
    let device = rows::first_at(s.devices, relay_store::is_called(submit.recipient), 0);
    if device >= s.devices.len() {
        (s, Err(relay_http::is_not_found()))
    } else {
        let recipient = s.devices[device].client_id;
        let known = rows::first_at(
            s.messages,
            is_same_message(sender, recipient, submit.message_id),
            0,
        );
        if known < s.messages.len() {
            (
                s,
                frame_answer(
                    seq![
                        handed_out(
                            s.messages[known],
                            relay_store::address_of(s.devices, sender),
                        ),
                    ],
                ),
            )
        } else if s.next_id == i64::MAX {
            (s, Err(relay_http::is_internal()))
        } else {
            let message = new_message(s, sender, recipient, submit, now);
            (
                StoreView {
                    messages: s.messages.push(message),
                    next_id: (s.next_id + 1) as i64,
                    ..s
                },
                frame_answer(seq![handed_out(message, None)]),
            )
        }
    }
}

/// The messages that wait for a recipient, as they are handed out.
pub open spec fn waiting(s: StoreView, recipient: Seq<char>, cursor: i64) -> Seq<ResponseView> {
    let all = rows::kept(s.messages, is_waiting(recipient, cursor));
    let batch = if all.len() > MAX_BATCH {
        all.take(MAX_BATCH as int)
    } else {
        all
    };
    batch.map_values(
        |message: MailView|
            handed_out(message, relay_store::address_of(s.devices, message.sender)),
    )
}

/// The store without the messages whose time has run out.
pub open spec fn without_expired(s: StoreView, now: u64) -> StoreView {
    StoreView { messages: rows::kept(s.messages, is_live(now as i64)), ..s }
}

/// The store with a message acknowledged.
pub open spec fn acknowledged(s: StoreView, index: int, now: u64) -> StoreView {
    StoreView {
        messages: s.messages.update(
            index,
            MailView { acknowledged_at: Some(now as i64), ..s.messages[index] },
        ),
        ..s
    }
}

/// What is known of a message that a device sent under an ID.
pub open spec fn status_of(s: StoreView, sender: Seq<char>, message_id: Seq<char>) -> Option<
    Seq<char>,
> {
    let index = rows::first_at(s.messages, is_sent_message(sender, message_id), 0);
    if index >= s.messages.len() {
        None
    } else if s.messages[index].acknowledged_at is Some {
        Some("read"@)
    } else {
        Some("sent"@)
    }
}

/// What comes of an acknowledgement: the store after it, and why it is refused.
pub open spec fn acknowledge_step(
    s: StoreView,
    recipient: Seq<char>,
    server_id: i64,
    acknowledged: bool,
    now: u64,
) -> (StoreView, Option<ErrorView>) {
    let index = rows::first_at(s.messages, is_numbered_message(server_id, recipient), 0);
    if !acknowledged {
        (s, Some(relay_http::is_bad_request("acknowledged must be true"@)))
    } else if index >= s.messages.len() {
        (s, Some(relay_http::is_not_found()))
    } else {
        (self::acknowledged(s, index, now), None)
    }
}

/// What became of a message that a device sent.
#[derive(Clone, Debug, PartialEq, Eq)]
pub struct MessageStatusResponse {
    pub message_id: String,
    pub status: String,
}

proof fn lemma_kept_numbered(messages: Seq<MailView>, keep: spec_fn(MailView) -> bool, next_id: i64)
    requires
        relay_store::numbered(messages, next_id),
    ensures
        relay_store::numbered(rows::kept(messages, keep), next_id),
    decreases messages.len(),
{
    if messages.len() > 0 {
        let front = messages.drop_last();
        assert forall|i: int, j: int| 0 <= i < j < front.len() implies (#[trigger] front[i]).server_id
            < (#[trigger] front[j]).server_id by {
            assert(front[i] == messages[i] && front[j] == messages[j]);
        }
        assert forall|i: int| 0 <= i < front.len() implies 0 < (#[trigger] front[i]).server_id
            < next_id by {
            assert(front[i] == messages[i]);
        }
        lemma_kept_numbered(front, keep, next_id);
        rows::lemma_kept(front, keep);
        let earlier = rows::kept(front, keep);
        let all = rows::kept(messages, keep);
        let last = messages[messages.len() - 1];
        assert forall|i: int| 0 <= i < earlier.len() implies (#[trigger] earlier[i]).server_id
            < last.server_id by {
            assert(front.contains(earlier[i]));
            let j = choose|j: int| 0 <= j < front.len() && front[j] == earlier[i];
            assert(messages[j] == earlier[i]);
        }
        assert forall|i: int, j: int| 0 <= i < j < all.len() implies (#[trigger] all[i]).server_id
            < (#[trigger] all[j]).server_id by {
            assert(all[i] == earlier[i]);
            if j < earlier.len() {
                assert(all[j] == earlier[j]);
            }
        }
        assert forall|i: int| 0 <= i < all.len() implies 0 < (#[trigger] all[i]).server_id
            < next_id by {
            if i < earlier.len() {
                assert(all[i] == earlier[i]);
            }
        }
    }
}

fn shown_time(limit: Option<i64>) -> (shown: Option<u64>)
    ensures
        shown == shown_limit(limit),
{
    match limit {
        Some(value) => Some(
            #[verifier::truncate]
            (value as u64),
        ),
        None => None,
    }
}

fn hand_out(message: &MessageRow, sender_address: Option<String>) -> (response: MessageResponse)
    ensures
        response@ == handed_out(message@, protocol::optional_text(sender_address)),
{
    MessageResponse {
        server_id: message.server_id,
        sender: message.sender.clone(),
        sender_address,
        message_id: message.message_id.clone(),
        ciphertext: b64(message.ciphertext.as_slice()),
        accepted_at: #[verifier::truncate]
        (message.accepted_at as u64),
        expires_at: shown_time(message.expires_at),
    }
}

fn answer_with(messages: &[MessageResponse]) -> (result: Result<Vec<u8>, ApiError>)
    ensures
        match frame_answer(relay_http::response_views(messages@)) {
            Ok(frame) => result matches Ok(bytes) && bytes@ == frame,
            Err(refusal) => result matches Err(error) && error@ == refusal,
        },
{
    match encode_binary_messages(messages) {
        Some(frame) => Ok(frame),
        None => Err(internal("messages do not fit into a frame")),
    }
}

fn answer_with_one(message: MessageResponse) -> (result: Result<Vec<u8>, ApiError>)
    ensures
        match frame_answer(seq![message@]) {
            Ok(frame) => result matches Ok(bytes) && bytes@ == frame,
            Err(refusal) => result matches Err(error) && error@ == refusal,
        },
{
    let mut messages: Vec<MessageResponse> = Vec::new();
    messages.push(message);
    assert(relay_http::response_views(messages@) =~= seq![message@]);
    answer_with(messages.as_slice())
}

impl RelayStore {
    fn message_known(&self, sender: &str, recipient: &str, message_id: &str) -> (index: usize)
        ensures
            index <= self.messages@.len(),
            index == rows::first_at(
                self@.messages,
                is_same_message(sender@, recipient@, message_id@),
                0,
            ),
    {
        let mut index: usize = 0;
        while index < self.messages.len()
            invariant
                index <= self.messages@.len(),
                rows::first_at(
                    self@.messages,
                    is_same_message(sender@, recipient@, message_id@),
                    0,
                ) == rows::first_at(
                    self@.messages,
                    is_same_message(sender@, recipient@, message_id@),
                    index as int,
                ),
            decreases self.messages@.len() - index,
        {
            assert(self@.messages[index as int] == self.messages@[index as int]@);
            let message = &self.messages[index];
            if same_text(message.sender.as_str(), sender) && same_text(
                message.recipient.as_str(),
                recipient,
            ) && same_text(message.message_id.as_str(), message_id) {
                return index;
            }
            index += 1;
        }
        index
    }

    /// Takes a message that a device sends. One that was taken before is not taken
    /// again, and is answered as it is.
    pub fn send(&mut self, sender: &str, submit: Submit, now: u64) -> (result: Result<
        Vec<u8>,
        ApiError,
    >)
        requires
            old(self).wf(),
            now <= MAX_TIME,
        ensures
            final(self).wf(),
            ({
                let step = send_step(old(self)@, sender@, submit@, now);
                &&& final(self)@ == step.0
                &&& match step.1 {
                    Ok(frame) => result matches Ok(body) && body@ == frame,
                    Err(refusal) => result matches Err(error) && error@ == refusal,
                }
            }),
    {
        let device: usize = self.device_called(submit.recipient.as_str());
        if device >= self.devices.len() {
            return Err(not_found());
        }
        assert(self@.devices[device as int] == self.devices@[device as int]@);
        let recipient = self.devices[device].client_id.clone();
        let known: usize = self.message_known(
            sender,
            recipient.as_str(),
            submit.message_id.as_str(),
        );
        if known < self.messages.len() {
            assert(self@.messages[known as int] == self.messages@[known as int]@);
            let address = self.device_address(sender);
            return answer_with_one(hand_out(&self.messages[known], address));
        }
        if self.next_id == i64::MAX {
            return Err(internal("no message number is left"));
        }
        let ghost s = self@;
        let ghost taken = new_message(s, sender@, recipient@, submit@, now);
        let message = MessageRow {
            server_id: self.next_id,
            sender: sender.to_owned(),
            recipient,
            message_id: submit.message_id,
            ciphertext: submit.ciphertext,
            accepted_at: now as i64,
            expires_at: match submit.expires_at {
                Some(limit) => Some(
                    #[verifier::truncate]
                    (limit as i64),
                ),
                None => None,
            },
            acknowledged_at: None,
        };
        assert(message@ == taken);
        let response = hand_out(&message, None);
        let ghost before = self.messages@;
        self.messages.push(message);
        self.next_id = self.next_id + 1;
        proof {
            let after = relay_store::mail_views(self.messages@);
            assert(after =~= relay_store::mail_views(before).push(taken));
            assert forall|i: int, j: int| 0 <= i < j < after.len() implies (#[trigger] after[i]).server_id
                < (#[trigger] after[j]).server_id by {
                assert(after[i] == s.messages[i]);
                if j < s.messages.len() {
                    assert(after[j] == s.messages[j]);
                }
            }
            assert forall|i: int| 0 <= i < after.len() implies 0 < (#[trigger] after[i]).server_id
                < self.next_id by {
                if i < s.messages.len() {
                    assert(after[i] == s.messages[i]);
                }
            }
        }
        answer_with_one(response)
    }

    fn device_address(&self, sender: &str) -> (address: Option<String>)
        ensures
            protocol::optional_text(address) == relay_store::address_of(self@.devices, sender@),
    {
        let index: usize = self.device_with_id(sender);
        if index < self.devices.len() {
            assert(self@.devices[index as int] == self.devices@[index as int]@);
            Some(self.devices[index].device_address.clone())
        } else {
            None
        }
    }

    /// The messages that wait for a device, behind those that it has seen.
    pub fn poll(&self, recipient: &str, cursor: i64) -> (messages: Vec<MessageResponse>)
        ensures
            relay_http::response_views(messages@) == waiting(self@, recipient@, cursor),
    {
        let mut messages: Vec<MessageResponse> = Vec::new();
        let ghost s = self@;
        let ghost wanted = is_waiting(recipient@, cursor);
        let ghost shown = |message: MailView|
            handed_out(message, relay_store::address_of(s.devices, message.sender));
        let mut index: usize = 0;
        assert(s.messages.take(0) =~= Seq::empty());
        assert(relay_http::response_views(messages@) =~= rows::kept(
            s.messages.take(0),
            wanted,
        ).map_values(shown));
        while index < self.messages.len() && messages.len() < MAX_BATCH
            invariant
                s == self@,
                wanted == is_waiting(recipient@, cursor),
                shown == (|message: MailView|
                    handed_out(message, relay_store::address_of(s.devices, message.sender))),
                index <= self.messages@.len(),
                messages@.len() <= MAX_BATCH,
                relay_http::response_views(messages@) == rows::kept(
                    s.messages.take(index as int),
                    wanted,
                ).map_values(shown),
            decreases self.messages@.len() - index,
        {
            let message = &self.messages[index];
            assert(s.messages[index as int] == message@);
            assert(s.messages.take(index + 1).drop_last() =~= s.messages.take(index as int));
            assert(s.messages.take(index + 1).last() == message@);
            if same_text(message.recipient.as_str(), recipient) && message.server_id > cursor
                && message.acknowledged_at.is_none() {
                let ghost before = messages@;
                let address = self.device_address(message.sender.as_str());
                messages.push(hand_out(message, address));
                assert(relay_http::response_views(messages@) =~= relay_http::response_views(
                    before,
                ).push(shown(message@)));
                assert(relay_http::response_views(messages@) =~= rows::kept(
                    s.messages.take(index + 1),
                    wanted,
                ).map_values(shown));
            }
            index += 1;
        }
        proof {
            let all = rows::kept(s.messages, wanted);
            let seen = rows::kept(s.messages.take(index as int), wanted);
            assert(seen.len() == messages@.len()) by {
                assert(relay_http::response_views(messages@).len() == messages@.len());
            }
            lemma_kept_prefix(s.messages, wanted, index as int);
            if index < s.messages.len() {
                assert(seen.len() == MAX_BATCH);
                assert(all.take(MAX_BATCH as int) =~= seen);
                if all.len() == MAX_BATCH {
                    assert(all =~= seen);
                }
            } else {
                assert(s.messages.take(index as int) =~= s.messages);
                assert(all.len() <= MAX_BATCH);
            }
            assert(waiting(s, recipient@, cursor) =~= seen.map_values(shown));
        }
        messages
    }

    /// Hands a device the messages that wait for it, once those whose time has run
    /// out are gone.
    pub fn receive(&mut self, recipient: &str, cursor: Option<i64>, now: u64) -> (result: Result<
        Vec<u8>,
        ApiError,
    >)
        requires
            old(self).wf(),
            now <= MAX_TIME,
        ensures
            final(self).wf(),
            final(self)@ == without_expired(old(self)@, now),
            match frame_answer(
                waiting(
                    without_expired(old(self)@, now),
                    recipient@,
                    match cursor {
                        Some(seen) => seen,
                        None => 0,
                    },
                ),
            ) {
                Ok(frame) => result matches Ok(body) && body@ == frame,
                Err(refusal) => result matches Err(error) && error@ == refusal,
            },
    {
        self.remove_expired(now);
        let from: i64 = match cursor {
            Some(seen) => seen,
            None => 0,
        };
        let messages = self.poll(recipient, from);
        answer_with(messages.as_slice())
    }

    fn remove_expired(&mut self, now: u64)
        requires
            old(self).wf(),
            now <= MAX_TIME,
        ensures
            final(self).wf(),
            final(self)@ == without_expired(old(self)@, now),
    {
        let ghost s = self@;
        let ghost live = is_live(now as i64);
        let mut left: Vec<MessageRow> = Vec::new();
        let mut index: usize = 0;
        assert(s.messages.take(0) =~= Seq::empty());
        assert(relay_store::mail_views(left@) =~= rows::kept(s.messages.take(0), live));
        while index < self.messages.len()
            invariant
                now <= MAX_TIME,
                s.messages == relay_store::mail_views(self.messages@),
                live == is_live(now as i64),
                index <= self.messages@.len(),
                relay_store::mail_views(left@) == rows::kept(
                    s.messages.take(index as int),
                    live,
                ),
            decreases self.messages@.len() - index,
        {
            let message = &self.messages[index];
            assert(s.messages[index as int] == message@);
            assert(s.messages.take(index + 1).drop_last() =~= s.messages.take(index as int));
            assert(s.messages.take(index + 1).last() == message@);
            let expired = match message.expires_at {
                Some(limit) => limit <= now as i64,
                None => false,
            };
            if !expired {
                let ghost before = left@;
                left.push(
                    MessageRow {
                        server_id: message.server_id,
                        sender: message.sender.clone(),
                        recipient: message.recipient.clone(),
                        message_id: message.message_id.clone(),
                        ciphertext: copy_bytes(message.ciphertext.as_slice()),
                        accepted_at: message.accepted_at,
                        expires_at: message.expires_at,
                        acknowledged_at: message.acknowledged_at,
                    },
                );
                assert(relay_store::mail_views(left@) =~= relay_store::mail_views(before).push(
                    message@,
                ));
            }
            index += 1;
        }
        assert(s.messages.take(index as int) =~= s.messages);
        proof {
            lemma_kept_numbered(s.messages, live, self.next_id);
        }
        self.messages = left;
    }

    /// Says what became of a message that a device sent.
    pub fn status(&self, sender: &str, message_id: String) -> (result: Result<
        MessageStatusResponse,
        ApiError,
    >)
        ensures
            ({
                let index = rows::first_at(
                    self@.messages,
                    is_sent_message(sender@, message_id@),
                    0,
                );
                if index >= self@.messages.len() {
                    result matches Err(error) && error@ == relay_http::is_not_found()
                } else {
                    result matches Ok(response) && response.message_id@ == message_id@
                        && response.status@ == (if self@.messages[index].acknowledged_at is Some {
                        "read"@
                    } else {
                        "sent"@
                    })
                }
            }),
            match status_of(self@, sender@, message_id@) {
                Some(status) => result matches Ok(response) && response.message_id@ == message_id@
                    && response.status@ == status,
                None => result matches Err(error) && error@ == relay_http::is_not_found(),
            },
    {
        let mut index: usize = 0;
        while index < self.messages.len()
            invariant
                index <= self.messages@.len(),
                rows::first_at(self@.messages, is_sent_message(sender@, message_id@), 0)
                    == rows::first_at(
                    self@.messages,
                    is_sent_message(sender@, message_id@),
                    index as int,
                ),
            decreases self.messages@.len() - index,
        {
            assert(self@.messages[index as int] == self.messages@[index as int]@);
            let message = &self.messages[index];
            if same_text(message.sender.as_str(), sender) && same_text(
                message.message_id.as_str(),
                message_id.as_str(),
            ) {
                let status = if message.acknowledged_at.is_some() {
                    "read".to_owned()
                } else {
                    "sent".to_owned()
                };
                return Ok(MessageStatusResponse { message_id, status });
            }
            index += 1;
        }
        Err(not_found())
    }

    /// Acknowledges a message in a device's mailbox.
    pub fn acknowledge(&mut self, recipient: &str, server_id: i64, acknowledged: bool, now: u64) -> (result:
        Result<(), ApiError>)
        requires
            old(self).wf(),
            now <= MAX_TIME,
        ensures
            final(self).wf(),
            ({
                let index = rows::first_at(
                    old(self)@.messages,
                    is_numbered_message(server_id, recipient@),
                    0,
                );
                if !acknowledged {
                    &&& result matches Err(error) && error@ == relay_http::is_bad_request(
                        "acknowledged must be true"@,
                    )
                    &&& final(self)@ == old(self)@
                } else if index >= old(self)@.messages.len() {
                    &&& result matches Err(error) && error@ == relay_http::is_not_found()
                    &&& final(self)@ == old(self)@
                } else {
                    &&& result is Ok
                    &&& final(self)@ == self::acknowledged(old(self)@, index, now)
                }
            }),
            ({
                let step = acknowledge_step(
                    old(self)@,
                    recipient@,
                    server_id,
                    acknowledged,
                    now,
                );
                &&& final(self)@ == step.0
                &&& match step.1 {
                    Some(refusal) => result matches Err(error) && error@ == refusal,
                    None => result is Ok,
                }
            }),
    {
        if !acknowledged {
            return Err(bad_request("acknowledged must be true".to_owned()));
        }
        let mut index: usize = 0;
        while index < self.messages.len()
            invariant
                *self == *old(self),
                old(self).wf(),
                now <= MAX_TIME,
                acknowledged,
                index <= self.messages@.len(),
                rows::first_at(
                    self@.messages,
                    is_numbered_message(server_id, recipient@),
                    0,
                ) == rows::first_at(
                    self@.messages,
                    is_numbered_message(server_id, recipient@),
                    index as int,
                ),
            decreases self.messages@.len() - index,
        {
            assert(self@.messages[index as int] == self.messages@[index as int]@);
            if self.messages[index].server_id == server_id && same_text(
                self.messages[index].recipient.as_str(),
                recipient,
            ) {
                let ghost s = self@;
                self.messages[index].acknowledged_at = Some(now as i64);
                proof {
                    let after = relay_store::mail_views(self.messages@);
                    assert(after =~= s.messages.update(
                        index as int,
                        MailView { acknowledged_at: Some(now as i64), ..s.messages[index as int] },
                    ));
                    assert forall|i: int, j: int| 0 <= i < j < after.len() implies (
                    #[trigger] after[i]).server_id < (#[trigger] after[j]).server_id by {
                        assert(after[i].server_id == s.messages[i].server_id);
                        assert(after[j].server_id == s.messages[j].server_id);
                    }
                    assert forall|i: int| 0 <= i < after.len() implies 0 < (
                    #[trigger] after[i]).server_id < self.next_id by {
                        assert(after[i].server_id == s.messages[i].server_id);
                    }
                }
                return Ok(());
            }
            index += 1;
        }
        Err(not_found())
    }
}

/// What a request for the status of a message must look like.
pub open spec fn status_request(accept: relay_http::HeaderView, message_id: Seq<char>) -> Result<
    (),
    Seq<char>,
> {
    match relay_http::json_accept(accept) {
        Err(message) => Err(message),
        Ok(_) => relay_http::text_within(message_id, MAX_MESSAGE_ID_BYTES, "message ID"@),
    }
}

/// Checks a request for the status of a message.
pub fn check_status_request(headers: &RequestHeaders, message_id: &str) -> (result: Result<
    (),
    ApiError,
>)
    ensures
        match status_request(headers.accept@, message_id@) {
            Ok(_) => result is Ok,
            Err(message) => result matches Err(error) && error@ == relay_http::is_bad_request(
                message,
            ),
        },
{
    if let Err(message) = validate_json_accept(headers) {
        return Err(bad_request(message));
    }
    if let Err(message) = validate_text(message_id, MAX_MESSAGE_ID_BYTES, "message ID") {
        return Err(bad_request(message));
    }
    Ok(())
}

// ---------------------------------------------------------------------------
// Laws
// ---------------------------------------------------------------------------

proof fn lemma_kept_prefix(rows: Seq<MailView>, keep: spec_fn(MailView) -> bool, count: int)
    requires
        0 <= count <= rows.len(),
    ensures
        rows::kept(rows.take(count), keep).len() <= rows::kept(rows, keep).len(),
        rows::kept(rows, keep).take(
            rows::kept(rows.take(count), keep).len() as int,
        ) == rows::kept(rows.take(count), keep),
    decreases rows.len() - count,
{
    let part = rows::kept(rows.take(count), keep);
    let all = rows::kept(rows, keep);
    if count == rows.len() {
        assert(rows.take(count) =~= rows);
        assert(all.take(part.len() as int) =~= part);
    } else {
        lemma_kept_prefix(rows, keep, count + 1);
        let next = rows::kept(rows.take(count + 1), keep);
        assert(rows.take(count + 1).drop_last() =~= rows.take(count));
        assert(next.take(part.len() as int) =~= part);
        assert(all.take(next.len() as int) =~= next);
        assert(all.take(part.len() as int) =~= next.take(part.len() as int));
    }
}

/// A stored message in the form in which the relay answers with it.
pub open spec fn answered(s: StoreView, message: MailView) -> MessageView {
    MessageView {
        server_id: message.server_id,
        sender: message.sender,
        sender_address: relay_store::address_of(s.devices, message.sender),
        message_id: message.message_id,
        accepted_at: unsigned(message.accepted_at),
        expires_at: shown_limit(message.expires_at),
        ciphertext: message.ciphertext,
    }
}

/// A message that is stored is not stored again, whatever ciphertext comes under its
/// sender, recipient and ID. Nothing changes, and the answer, where it fits into a
/// frame, is read as the message that is stored, with its number, time and ciphertext.
pub proof fn law_stored_message_is_answered(
    s: StoreView,
    sender: Seq<char>,
    submit: SubmitView,
    now: u64,
    at: int,
)
    requires
        ({
            let device = rows::first_at(s.devices, relay_store::is_called(submit.recipient), 0);
            &&& device < s.devices.len()
            &&& at == rows::first_at(
                s.messages,
                is_same_message(sender, s.devices[device].client_id, submit.message_id),
                0,
            )
            &&& at < s.messages.len()
        }),
    ensures
        ({
            let step = send_step(s, sender, submit, now);
            let stored = answered(s, s.messages[at]);
            &&& step.0 == s
            &&& step.1 is Ok <==> protocol::messages_encoding(seq![stored]) is Ok
            &&& step.1 matches Ok(frame) ==> protocol::messages_decoding(frame) == Ok::<
                Seq<MessageView>,
                ProtocolError,
            >(seq![stored])
        }),
{
    let device = rows::first_at(s.devices, relay_store::is_called(submit.recipient), 0);
    let wanted = is_same_message(sender, s.devices[device].client_id, submit.message_id);
    rows::lemma_first_at(s.messages, wanted, 0);
    let stored = answered(s, s.messages[at]);
    let response = handed_out(s.messages[at], relay_store::address_of(s.devices, sender));
    primitives::law_base64_round_trip(s.messages[at].ciphertext);
    assert(relay_http::binary_form(response) == Some(stored));
    let responses = seq![response];
    assert(responses.map_values(
        |message: ResponseView| relay_http::binary_form(message)->0,
    ) =~= seq![stored]);
    assert forall|i: int| 0 <= i < responses.len() implies relay_http::binary_form(
        #[trigger] responses[i],
    ) is Some by {
        assert(responses[i] == response);
    }
    if protocol::messages_encoding(seq![stored]) is Ok {
        protocol::law_messages_round_trip(seq![stored]);
    }
}

/// Sending a message again changes nothing, whatever ciphertext comes the second time:
/// there is at most one message from a sender to a recipient under an ID. The second
/// answer, where it fits into a frame, is read as the first message, with the number,
/// the time and the ciphertext that it has.
pub proof fn law_send_is_idempotent(
    s: StoreView,
    sender: Seq<char>,
    submit: SubmitView,
    now: u64,
    again: SubmitView,
    later: u64,
)
    requires
        again.recipient == submit.recipient,
        again.message_id == submit.message_id,
        send_step(s, sender, submit, now).0 != s,
    ensures
        ({
            let after = send_step(s, sender, submit, now).0;
            let second = send_step(after, sender, again, later);
            let stored = answered(after, after.messages.last());
            &&& second.0 == after
            &&& stored.server_id == s.next_id
            &&& stored.accepted_at == unsigned(now as i64)
            &&& stored.ciphertext == submit.ciphertext
            &&& second.1 is Ok <==> protocol::messages_encoding(seq![stored]) is Ok
            &&& second.1 matches Ok(frame) ==> protocol::messages_decoding(frame) == Ok::<
                Seq<MessageView>,
                ProtocolError,
            >(seq![stored])
        }),
{
    let device = rows::first_at(s.devices, relay_store::is_called(submit.recipient), 0);
    let after = send_step(s, sender, submit, now).0;
    let recipient = s.devices[device].client_id;
    let wanted = is_same_message(sender, recipient, submit.message_id);
    let message = new_message(s, sender, recipient, submit, now);
    assert(after.messages == s.messages.push(message));
    lemma_first_added(s.messages, wanted, message, 0);
    law_stored_message_is_answered(after, sender, again, later, s.messages.len() as int);
}

/// The answer to a message fits into a frame where its texts are within their limits
/// and its ciphertext leaves room for them.
pub proof fn law_answer_fits(message: MessageView)
    requires
        encode_utf8(message.sender).len() <= protocol::MAX_ADDRESS_BYTES,
        message.sender_address matches Some(address) ==> encode_utf8(address).len()
            <= protocol::MAX_ADDRESS_BYTES,
        encode_utf8(message.message_id).len() <= protocol::MAX_MESSAGE_ID_BYTES,
        message.ciphertext.len() <= protocol::MAX_BODY - 1024,
    ensures
        protocol::messages_encoding(seq![message]) is Ok,
{
    let one = seq![message];
    assert(one.drop_last() =~= Seq::empty());
    assert(one.last() == message);
    reveal_with_fuel(protocol::message_list_error, 2);
    reveal_with_fuel(protocol::message_list_bytes, 2);
    bytes::lemma_be_u64(message.server_id as u64);
    bytes::lemma_be_u64(message.accepted_at);
    bytes::lemma_be_u32(1);
    bytes::lemma_be_u32(encode_utf8(message.sender).len() as u32);
    bytes::lemma_be_u32(encode_utf8(message.message_id).len() as u32);
    bytes::lemma_be_u32(message.ciphertext.len() as u32);
    if let Some(address) = message.sender_address {
        bytes::lemma_be_u32(encode_utf8(address).len() as u32);
    }
    if let Some(limit) = message.expires_at {
        bytes::lemma_be_u64(limit);
    }
}

proof fn lemma_first_added(
    rows: Seq<MailView>,
    wanted: spec_fn(MailView) -> bool,
    added: MailView,
    from: int,
)
    requires
        0 <= from <= rows.len(),
        rows::first_at(rows, wanted, from) >= rows.len(),
        wanted(added),
    ensures
        rows::first_at(rows.push(added), wanted, from) == rows.len(),
    decreases rows.len() - from,
{
    assert(rows.push(added)[rows.len() as int] == added);
    if from < rows.len() {
        assert(rows.push(added)[from] == rows[from]);
        lemma_first_added(rows, wanted, added, from + 1);
    }
}

/// A message that was taken waits for its recipient, unless there are many in front
/// of it, until it is acknowledged or its time runs out.
pub proof fn law_sent_message_waits(s: StoreView, sender: Seq<char>, submit: SubmitView, now: u64, cursor: i64)
    requires
        relay_store::numbered(s.messages, s.next_id),
        send_step(s, sender, submit, now).0 != s,
        cursor < s.next_id,
    ensures
        ({
            let device = rows::first_at(
                s.devices,
                relay_store::is_called(submit.recipient),
                0,
            );
            let recipient = s.devices[device].client_id;
            let after = send_step(s, sender, submit, now).0;
            rows::kept(after.messages, is_waiting(recipient, cursor)).last()
                == new_message(s, sender, recipient, submit, now)
        }),
{
    let device = rows::first_at(s.devices, relay_store::is_called(submit.recipient), 0);
    let recipient = s.devices[device].client_id;
    let after = send_step(s, sender, submit, now).0;
    let message = new_message(s, sender, recipient, submit, now);
    assert(after.messages.last() == message);
    assert(is_waiting(recipient, cursor)(message));
}

/// Nothing that is handed out has been acknowledged, has been seen, or belongs to
/// someone else.
pub proof fn law_only_own_unseen_messages_wait(s: StoreView, recipient: Seq<char>, cursor: i64)
    ensures
        forall|i: int|
            0 <= i < rows::kept(s.messages, is_waiting(recipient, cursor)).len() ==> {
                let message = #[trigger] rows::kept(
                    s.messages,
                    is_waiting(recipient, cursor),
                )[i];
                message.recipient == recipient && message.server_id > cursor
                    && message.acknowledged_at is None
            },
{
    rows::lemma_kept(s.messages, is_waiting(recipient, cursor));
}

/// A message that was acknowledged is not handed out again.
pub proof fn law_acknowledged_message_is_gone(s: StoreView, index: int, recipient: Seq<char>, cursor: i64, now: u64)
    requires
        relay_store::numbered(s.messages, s.next_id),
        0 <= index < s.messages.len(),
    ensures
        forall|i: int|
            0 <= i < rows::kept(
                acknowledged(s, index, now).messages,
                is_waiting(recipient, cursor),
            ).len() ==> (#[trigger] rows::kept(
                acknowledged(s, index, now).messages,
                is_waiting(recipient, cursor),
            )[i]).server_id != s.messages[index].server_id,
{
    let after = acknowledged(s, index, now).messages;
    let wanted = is_waiting(recipient, cursor);
    rows::lemma_kept(after, wanted);
    let left = rows::kept(after, wanted);
    assert forall|i: int| 0 <= i < left.len() implies (#[trigger] left[i]).server_id
        != s.messages[index].server_id by {
        assert(wanted(left[i]) && after.contains(left[i]));
        let j = choose|j: int| 0 <= j < after.len() && after[j] == left[i];
        if j < index {
            assert(after[j] == s.messages[j]);
            assert(s.messages[j].server_id < s.messages[index].server_id);
        } else if j > index {
            assert(after[j] == s.messages[j]);
            assert(s.messages[index].server_id < s.messages[j].server_id);
        }
    }
}

// ---------------------------------------------------------------------------
// What the mailboxes hold, row by row
// ---------------------------------------------------------------------------

/// Whether a device is the first with a name, which may be its ID or its address.
pub open spec fn first_called(devices: Seq<DeviceView>, name: Seq<char>, index: int) -> bool {
    &&& 0 <= index < devices.len()
    &&& devices[index].client_id == name || devices[index].device_address == name
    &&& forall|i: int|
        0 <= i < index ==> (#[trigger] devices[i]).client_id != name && devices[i].device_address
            != name
}

/// Whether a message with a sender, a recipient and an ID is stored.
pub open spec fn is_stored(
    messages: Seq<MailView>,
    sender: Seq<char>,
    recipient: Seq<char>,
    message_id: Seq<char>,
) -> bool {
    exists|i: int|
        0 <= i < messages.len() && (#[trigger] messages[i]).sender == sender
            && messages[i].recipient == recipient && messages[i].message_id == message_id
}

/// A message to a known device is stored behind all others, under the next number, with
/// its own ID and ciphertext, unless one from the same sender to the same recipient with
/// that very ID is stored already. Nothing else of the store changes, and the answer,
/// where it fits into a frame, is read as the message.
pub proof fn law_new_message_is_stored(
    s: StoreView,
    sender: Seq<char>,
    submit: SubmitView,
    now: u64,
    device: int,
)
    requires
        now <= MAX_TIME,
        first_called(s.devices, submit.recipient, device),
        !is_stored(s.messages, sender, s.devices[device].client_id, submit.message_id),
        s.next_id < i64::MAX,
    ensures
        ({
            let (after, answer) = send_step(s, sender, submit, now);
            let last = s.messages.len() as int;
            &&& after.messages.len() == last + 1
            &&& forall|i: int| 0 <= i < last ==> #[trigger] after.messages[i] == s.messages[i]
            &&& after.messages[last].server_id == s.next_id
            &&& after.messages[last].sender == sender
            &&& after.messages[last].recipient == s.devices[device].client_id
            &&& after.messages[last].message_id == submit.message_id
            &&& after.messages[last].ciphertext == submit.ciphertext
            &&& after.messages[last].accepted_at == now
            &&& after.messages[last].acknowledged_at is None
            &&& submit.expires_at is None <==> after.messages[last].expires_at is None
            &&& submit.expires_at matches Some(limit) ==> limit <= i64::MAX
                ==> after.messages[last].expires_at->0 == limit
            &&& after.next_id == s.next_id + 1
            &&& after.devices == s.devices
            &&& after.allowlist == s.allowlist
            &&& after.pending == s.pending
            &&& after.challenges == s.challenges
            &&& after.nonces == s.nonces
            &&& after.contacts == s.contacts
            &&& answer matches Ok(frame) ==> {
                &&& protocol::messages_decoding(frame) is Ok
                &&& protocol::messages_decoding(frame)->Ok_0.len() == 1
                &&& protocol::messages_decoding(frame)->Ok_0[0].server_id == s.next_id
                &&& protocol::messages_decoding(frame)->Ok_0[0].sender == sender
                &&& protocol::messages_decoding(frame)->Ok_0[0].message_id == submit.message_id
                &&& protocol::messages_decoding(frame)->Ok_0[0].ciphertext == submit.ciphertext
                &&& protocol::messages_decoding(frame)->Ok_0[0].accepted_at == now
            }
        }),
{
    let recipient = s.devices[device].client_id;
    let wanted = is_same_message(sender, recipient, submit.message_id);
    rows::lemma_first_is(s.devices, relay_store::is_called(submit.recipient), device);
    assert forall|i: int| 0 <= i < s.messages.len() implies !wanted(#[trigger] s.messages[i]) by {
        assert(!(s.messages[i].sender == sender && s.messages[i].recipient == recipient
            && s.messages[i].message_id == submit.message_id));
    }
    rows::lemma_first_is(s.messages, wanted, s.messages.len() as int);
    let message = new_message(s, sender, recipient, submit, now);
    let stored = MessageView { sender_address: None, ..answered(s, message) };
    let response = handed_out(message, None);
    assert(now as i64 as u64 == now) by (bit_vector)
        requires
            now <= 0x7fff_ffff_ffff_ffffu64,
    ;
    primitives::law_base64_round_trip(message.ciphertext);
    assert(relay_http::binary_form(response) == Some(stored));
    let responses = seq![response];
    assert(responses.map_values(
        |message: ResponseView| relay_http::binary_form(message)->0,
    ) =~= seq![stored]);
    assert forall|i: int| 0 <= i < responses.len() implies relay_http::binary_form(
        #[trigger] responses[i],
    ) is Some by {
        assert(responses[i] == response);
    }
    if protocol::messages_encoding(seq![stored]) is Ok {
        protocol::law_messages_round_trip(seq![stored]);
    }
    if let Some(limit) = submit.expires_at {
        if limit <= i64::MAX {
            assert(limit as i64 == limit) by (bit_vector)
                requires
                    limit <= 0x7fff_ffff_ffff_ffffu64,
            ;
        }
    }
}

/// A message that is stored already, one to nobody, and one that no number is left for
/// change nothing. One to nobody is refused as not found.
pub proof fn law_message_is_refused_or_known(
    s: StoreView,
    sender: Seq<char>,
    submit: SubmitView,
    now: u64,
    device: int,
)
    ensures
        first_called(s.devices, submit.recipient, device) && is_stored(
            s.messages,
            sender,
            s.devices[device].client_id,
            submit.message_id,
        ) ==> send_step(s, sender, submit, now).0 == s,
        (forall|i: int|
            0 <= i < s.devices.len() ==> (#[trigger] s.devices[i]).client_id != submit.recipient
                && s.devices[i].device_address != submit.recipient) ==> send_step(
            s,
            sender,
            submit,
            now,
        ) == (s, Err::<Seq<u8>, ErrorView>(relay_http::is_not_found())),
{
    if first_called(s.devices, submit.recipient, device) {
        rows::lemma_first_is(s.devices, relay_store::is_called(submit.recipient), device);
        let recipient = s.devices[device].client_id;
        let wanted = is_same_message(sender, recipient, submit.message_id);
        rows::lemma_first_at(s.messages, wanted, 0);
        if is_stored(s.messages, sender, recipient, submit.message_id) {
            let i = choose|i: int|
                0 <= i < s.messages.len() && (#[trigger] s.messages[i]).sender == sender
                    && s.messages[i].recipient == recipient && s.messages[i].message_id
                    == submit.message_id;
            assert(wanted(s.messages[i]));
        }
    }
    if forall|i: int|
        0 <= i < s.devices.len() ==> (#[trigger] s.devices[i]).client_id != submit.recipient
            && s.devices[i].device_address != submit.recipient {
        rows::lemma_first_is(
            s.devices,
            relay_store::is_called(submit.recipient),
            s.devices.len() as int,
        );
    }
}

/// Whether a message waits for a recipient behind a cursor.
pub open spec fn waits(message: MailView, recipient: Seq<char>, cursor: i64) -> bool {
    message.recipient == recipient && message.server_id > cursor && message.acknowledged_at is None
}

/// Whether a message is handed out with all that is stored of it.
pub open spec fn is_shown(message: MailView, shown: ResponseView) -> bool {
    &&& shown.server_id == message.server_id
    &&& shown.sender == message.sender
    &&& shown.message_id == message.message_id
    &&& primitives::base64_bytes(shown.ciphertext) == Some(message.ciphertext)
    &&& message.accepted_at >= 0 ==> shown.accepted_at == message.accepted_at
    &&& shown.expires_at is Some <==> message.expires_at is Some
    &&& message.expires_at is Some && message.expires_at->0 >= 0 ==> shown.expires_at->0
        == message.expires_at->0
}

/// Whether a list of answers is what waits for a recipient: the waiting messages at
/// some positions, in their order, each with all that is stored of it and with the
/// address of its sender. Nothing that waits is left out unless the list is full, and
/// then only what stands behind everything that is on it.
pub open spec fn is_mailbox(
    s: StoreView,
    recipient: Seq<char>,
    cursor: i64,
    shown: Seq<ResponseView>,
    at: Seq<int>,
) -> bool {
    &&& rows::ascending(at, s.messages.len() as int)
    &&& at.len() == shown.len()
    &&& at.len() <= 100
    &&& forall|k: int|
        0 <= k < at.len() ==> waits(s.messages[#[trigger] at[k]], recipient, cursor) && is_shown(
            s.messages[at[k]],
            shown[k],
        ) && is_address_of(s.devices, s.messages[at[k]].sender, shown[k].sender_address)
    &&& forall|j: int|
        0 <= j < s.messages.len() && waits(#[trigger] s.messages[j], recipient, cursor)
            ==> at.contains(j) || (at.len() == 100 && at[99] < j)
}

/// Whether an address is that of the first device with an ID, or there is none.
pub open spec fn is_address_of(
    devices: Seq<DeviceView>,
    client_id: Seq<char>,
    address: Option<Seq<char>>,
) -> bool {
    match address {
        Some(found) => exists|i: int|
            0 <= i < devices.len() && (#[trigger] devices[i]).client_id == client_id
                && devices[i].device_address == found && forall|j: int|
                0 <= j < i ==> (#[trigger] devices[j]).client_id != client_id,
        None => forall|i: int|
            0 <= i < devices.len() ==> (#[trigger] devices[i]).client_id != client_id,
    }
}

proof fn lemma_address_of(devices: Seq<DeviceView>, client_id: Seq<char>)
    ensures
        is_address_of(devices, client_id, relay_store::address_of(devices, client_id)),
{
    let wanted = relay_store::has_id(client_id);
    let index = rows::first_at(devices, wanted, 0);
    rows::lemma_first_at(devices, wanted, 0);
    assert forall|j: int| 0 <= j < index implies (#[trigger] devices[j]).client_id
        != client_id by {
        assert(!wanted(devices[j]));
    }
    if index < devices.len() {
        assert(devices[index].client_id == client_id);
    }
}

proof fn lemma_shown(message: MailView, address: Option<Seq<char>>)
    ensures
        is_shown(message, handed_out(message, address)),
{
    primitives::law_base64_round_trip(message.ciphertext);
    let accepted = message.accepted_at;
    if accepted >= 0 {
        assert(accepted as u64 == accepted) by (bit_vector)
            requires
                accepted >= 0,
        ;
    }
    if let Some(limit) = message.expires_at {
        if limit >= 0 {
            assert(limit as u64 == limit) by (bit_vector)
                requires
                    limit >= 0,
            ;
        }
    }
}

/// A device is handed exactly the messages that are stored for it, that it has not
/// acknowledged and that stand behind its cursor, oldest first and at most a hundred.
pub proof fn law_mailbox_is_handed_out(s: StoreView, recipient: Seq<char>, cursor: i64) -> (at: Seq<
    int,
>)
    ensures
        is_mailbox(s, recipient, cursor, waiting(s, recipient, cursor), at),
{
    let wanted = is_waiting(recipient, cursor);
    let all = rows::kept(s.messages, wanted);
    let full = rows::lemma_kept_positions(s.messages, wanted);
    let shown = waiting(s, recipient, cursor);
    let at = if all.len() > MAX_BATCH {
        full.take(MAX_BATCH as int)
    } else {
        full
    };
    assert forall|k: int| 0 <= k < at.len() implies waits(
        s.messages[#[trigger] at[k]],
        recipient,
        cursor,
    ) && is_shown(s.messages[at[k]], shown[k]) && is_address_of(
        s.devices,
        s.messages[at[k]].sender,
        shown[k].sender_address,
    ) by {
        assert(at[k] == full[k]);
        assert(all[k] == s.messages[at[k]]);
        let address = relay_store::address_of(s.devices, all[k].sender);
        assert(shown[k] == handed_out(all[k], address));
        lemma_shown(all[k], address);
        lemma_address_of(s.devices, all[k].sender);
    }
    assert forall|i: int| 0 <= i < at.len() implies 0 <= #[trigger] at[i] < s.messages.len() by {
        assert(at[i] == full[i]);
    }
    assert forall|i: int, j: int| 0 <= i < j < at.len() implies #[trigger] at[i]
        < #[trigger] at[j] by {
        assert(at[i] == full[i] && at[j] == full[j]);
    }
    assert forall|j: int|
        0 <= j < s.messages.len() && waits(#[trigger] s.messages[j], recipient, cursor) implies
        at.contains(j) || (at.len() == 100 && at[99] < j) by {
        assert(wanted(s.messages[j]));
        assert(full.contains(j));
        let k = choose|k: int| 0 <= k < full.len() && full[k] == j;
        if k < at.len() {
            assert(at[k] == j);
        } else {
            assert(at[99] == full[99]);
            assert(full[99] < full[k]);
        }
    }
    at
}

/// A message that is sent under a new ID reaches its recipient: it is on the list that
/// the recipient is handed next, with its ID and ciphertext, unless a hundred older
/// messages fill that list.
pub proof fn law_sent_message_is_received(
    s: StoreView,
    sender: Seq<char>,
    submit: SubmitView,
    now: u64,
    device: int,
    cursor: i64,
)
    requires
        now <= MAX_TIME,
        first_called(s.devices, submit.recipient, device),
        !is_stored(s.messages, sender, s.devices[device].client_id, submit.message_id),
        0 < s.next_id < i64::MAX,
        cursor < s.next_id,
    ensures
        ({
            let after = send_step(s, sender, submit, now).0;
            let shown = waiting(after, s.devices[device].client_id, cursor);
            shown.len() == 100 || exists|k: int|
                0 <= k < shown.len() && (#[trigger] shown[k]).message_id == submit.message_id
                    && shown[k].sender == sender && shown[k].server_id == s.next_id
                    && primitives::base64_bytes(shown[k].ciphertext) == Some(submit.ciphertext)
        }),
{
    law_new_message_is_stored(s, sender, submit, now, device);
    let after = send_step(s, sender, submit, now).0;
    let recipient = s.devices[device].client_id;
    let at = law_mailbox_is_handed_out(after, recipient, cursor);
    let last = s.messages.len() as int;
    let shown = waiting(after, recipient, cursor);
    assert(waits(after.messages[last], recipient, cursor));
    if shown.len() != 100 {
        assert(at.contains(last));
        let k = choose|k: int| 0 <= k < at.len() && at[k] == last;
        assert(is_shown(after.messages[at[k]], shown[k]));
    }
}

/// Of the stored messages exactly those go whose time has run out, and the others keep
/// their order. Nothing else of the store changes.
pub proof fn law_only_expired_messages_go(s: StoreView, now: u64) -> (at: Seq<int>)
    requires
        now <= MAX_TIME,
    ensures
        rows::ascending(at, s.messages.len() as int),
        without_expired(s, now).messages.len() == at.len(),
        forall|k: int|
            0 <= k < at.len() ==> without_expired(s, now).messages[k]
                == s.messages[#[trigger] at[k]],
        forall|j: int|
            0 <= j < s.messages.len() ==> (at.contains(j) <==> ((
            #[trigger] s.messages[j]).expires_at is None || s.messages[j].expires_at->0 > now)),
        without_expired(s, now) == (StoreView {
            messages: without_expired(s, now).messages,
            ..s
        }),
{
    let live = is_live(now as i64);
    let at = rows::lemma_kept_positions(s.messages, live);
    assert forall|j: int| 0 <= j < s.messages.len() implies (at.contains(j) <==> ((
    #[trigger] s.messages[j]).expires_at is None || s.messages[j].expires_at->0 > now)) by {
        assert(live(s.messages[j]) <==> (s.messages[j].expires_at is None
            || s.messages[j].expires_at->0 > now));
        if at.contains(j) {
            let k = choose|k: int| 0 <= k < at.len() && at[k] == j;
            assert(live(s.messages[at[k]]));
        }
    }
    at
}

/// What is said of a message is said of the first one that the sender has under the ID:
/// "read" once it was acknowledged and "sent" before. Of an ID under which the sender
/// has none, nothing is said.
pub proof fn law_status_is_of_own_message(
    s: StoreView,
    sender: Seq<char>,
    message_id: Seq<char>,
    index: int,
)
    ensures
        0 <= index < s.messages.len() && s.messages[index].sender == sender
            && s.messages[index].message_id == message_id && (forall|i: int|
            0 <= i < index ==> (#[trigger] s.messages[i]).sender != sender
                || s.messages[i].message_id != message_id) ==> status_of(s, sender, message_id)
            == Some(
            if s.messages[index].acknowledged_at is Some {
                "read"@
            } else {
                "sent"@
            },
        ),
        (forall|i: int|
            0 <= i < s.messages.len() ==> (#[trigger] s.messages[i]).sender != sender
                || s.messages[i].message_id != message_id) <==> status_of(s, sender, message_id)
            is None,
{
    let wanted = is_sent_message(sender, message_id);
    rows::lemma_first_at(s.messages, wanted, 0);
    let found = rows::first_at(s.messages, wanted, 0);
    if 0 <= index < s.messages.len() && s.messages[index].sender == sender
        && s.messages[index].message_id == message_id && (forall|i: int|
        0 <= i < index ==> (#[trigger] s.messages[i]).sender != sender || s.messages[i].message_id
            != message_id) {
        rows::lemma_first_is(s.messages, wanted, index);
    }
    if status_of(s, sender, message_id) is None {
        assert forall|i: int| 0 <= i < s.messages.len() implies (#[trigger] s.messages[i]).sender
            != sender || s.messages[i].message_id != message_id by {
            assert(!wanted(s.messages[i]));
        }
    } else {
        assert(wanted(s.messages[found]));
        assert(s.messages[found].sender == sender);
    }
}

/// An acknowledgement is taken for a message with that number in the mailbox of that
/// recipient. It marks that message and touches no other; one for a message of someone
/// else, or for none, is refused and changes nothing.
pub proof fn law_acknowledgement_touches_one_message(
    s: StoreView,
    recipient: Seq<char>,
    server_id: i64,
    now: u64,
    index: int,
)
    requires
        now <= MAX_TIME,
        relay_store::numbered(s.messages, s.next_id),
    ensures
        acknowledge_step(s, recipient, server_id, false, now).0 == s,
        acknowledge_step(s, recipient, server_id, false, now).1 is Some,
        (forall|i: int|
            0 <= i < s.messages.len() ==> (#[trigger] s.messages[i]).server_id != server_id
                || s.messages[i].recipient != recipient) ==> acknowledge_step(
            s,
            recipient,
            server_id,
            true,
            now,
        ) == (s, Some(relay_http::is_not_found())),
        0 <= index < s.messages.len() && s.messages[index].server_id == server_id
            && s.messages[index].recipient == recipient ==> {
            let (after, refusal) = acknowledge_step(s, recipient, server_id, true, now);
            &&& refusal is None
            &&& after.messages.len() == s.messages.len()
            &&& after.messages[index] == (MailView {
                acknowledged_at: Some(after.messages[index].acknowledged_at->0),
                ..s.messages[index]
            })
            &&& after.messages[index].acknowledged_at->0 == now
            &&& forall|i: int|
                0 <= i < s.messages.len() && i != index ==> #[trigger] after.messages[i]
                    == s.messages[i]
            &&& after == (StoreView { messages: after.messages, ..s })
        },
{
    let wanted = is_numbered_message(server_id, recipient);
    if forall|i: int|
        0 <= i < s.messages.len() ==> (#[trigger] s.messages[i]).server_id != server_id
            || s.messages[i].recipient != recipient {
        rows::lemma_first_is(s.messages, wanted, s.messages.len() as int);
    }
    if 0 <= index < s.messages.len() && s.messages[index].server_id == server_id
        && s.messages[index].recipient == recipient {
        assert forall|i: int| 0 <= i < index implies !wanted(#[trigger] s.messages[i]) by {
            assert(s.messages[i].server_id < s.messages[index].server_id);
        }
        rows::lemma_first_is(s.messages, wanted, index);
    }
}

/// Nothing changes where a message is not acknowledged, where there is no such message
/// of the recipient, or where an ID is too long to be asked about.
pub proof fn law_refusals_change_nothing(
    s: StoreView,
    recipient: Seq<char>,
    server_id: i64,
    now: u64,
    accept: relay_http::HeaderView,
    message_id: Seq<char>,
)
    ensures
        acknowledge_step(s, recipient, server_id, false, now) == (
            s,
            Some((relay_http::ErrorView { status: 400, message: "acknowledged must be true"@ })),
        ),
        (forall|i: int|
            0 <= i < s.messages.len() ==> !((#[trigger] s.messages[i]).server_id == server_id
                && s.messages[i].recipient == recipient)) ==> acknowledge_step(
            s,
            recipient,
            server_id,
            true,
            now,
        ).0 == s && acknowledge_step(s, recipient, server_id, true, now).1 is Some,
        relay_http::json_accept(accept) is Ok && encode_utf8(message_id).len() > 256
            ==> status_request(accept, message_id) == Err::<(), Seq<char>>(
            relay_http::too_long(256, "message ID"@),
        ),
        relay_http::json_accept(accept) is Ok && encode_utf8(message_id).len() <= 256
            ==> status_request(accept, message_id) is Ok,
{
    let wanted = is_numbered_message(server_id, recipient);
    rows::lemma_first_at(s.messages, wanted, 0);
}

} // verus!
