//! Conversations: queueing what is sent, and working off what a transport holds.
//!
//! Transports, the Signal session and the history file do their work outside.
//! [`ChatSend`] and [`ChatPoll`] say what is to be done next, and take in what
//! came of it.
use vstd::prelude::*;
use vstd::utf8::*;

use crate::bundle::{BundleView, SignalPreKeyBundle};
use crate::bytes::copy_bytes;
use crate::history;
use crate::history::{EntryView, HistoryEntry, HistoryFile, HistoryView};
use crate::primitives;
use crate::protocol;
use crate::signal;
use crate::signal::{SafeChatMessage, SafeChatMessageView};
use crate::text;
use crate::text::{
    contains_text, parse_i64, same_optional_text, same_text, utf8_lossy, utf8_string,
};
use crate::transport;
use crate::transport::{
    envelope_text, DeliveryStatus, TextTransport, TransportMessage, TransportMessageView,
};

verus! {

/// The sender of every message that this profile wrote.
pub const LOCAL_SENDER: &'static str = "you";

/// A message that no transport has taken yet.
pub const STATUS_QUEUED: &'static str = "queued";

/// A message that a transport has taken.
pub const STATUS_SENT: &'static str = "sent";

/// A message that its recipient has acknowledged.
pub const STATUS_READ: &'static str = "read";

/// A message from the peer.
pub const STATUS_RECEIVED: &'static str = "received";

/// What the Signal session says of a message that it has already gone past.
pub const OLD_COUNTER: &'static str = "old counter";

/// Something that a front end shows.
#[derive(Clone, Debug, PartialEq, Eq)]
pub enum ChatEvent {
    Sent { timestamp: u64, text: String },
    Read { timestamp: u64, text: String },
    Received { timestamp: u64, sender: String, text: String },
    Stale { transport_id: String },
}

/// The contents of a [`ChatEvent`].
pub enum EventView {
    Sent { timestamp: u64, text: Seq<char> },
    Read { timestamp: u64, text: Seq<char> },
    Received { timestamp: u64, sender: Seq<char>, text: Seq<char> },
    Stale { transport_id: Seq<char> },
}

impl View for ChatEvent {
    type V = EventView;

    open spec fn view(&self) -> EventView {
        match *self {
            ChatEvent::Sent { timestamp, text } => EventView::Sent { timestamp, text: text@ },
            ChatEvent::Read { timestamp, text } => EventView::Read { timestamp, text: text@ },
            ChatEvent::Received { timestamp, sender, text } => EventView::Received {
                timestamp,
                sender: sender@,
                text: text@,
            },
            ChatEvent::Stale { transport_id } => EventView::Stale { transport_id: transport_id@ },
        }
    }
}

/// The contents of every event of a list.
pub open spec fn event_views(events: Seq<ChatEvent>) -> Seq<EventView> {
    events.map_values(|event: ChatEvent| event@)
}

/// Why a chat operation ended early.
#[derive(Clone, Copy, Debug, PartialEq, Eq, Structural)]
pub enum ChatError {
    /// Saving, sending, receiving, decrypting or acknowledging failed.
    OutsideFailed,
    /// A decrypted message is not UTF-8 text.
    NotUtf8,
    /// The answer does not belong to what was asked.
    UnexpectedReply,
}

// ---------------------------------------------------------------------------
// Entries
// ---------------------------------------------------------------------------

/// The first entry at or behind `from` that has the message ID, or the length.
pub open spec fn find_id(entries: Seq<EntryView>, id: Seq<char>, from: int) -> int
    decreases entries.len() - from,
{
    if from >= entries.len() {
        entries.len() as int
    } else if entries[from].message_id == id {
        from
    } else {
        find_id(entries, id, from + 1)
    }
}

/// Whether an entry has the message ID.
pub open spec fn has_id(entries: Seq<EntryView>, id: Seq<char>) -> bool {
    exists|i: int| 0 <= i < entries.len() && (#[trigger] entries[i]).message_id == id
}

/// A history with the status of one entry changed.
pub open spec fn with_status(h: HistoryView, index: int, status: Seq<char>) -> HistoryView {
    HistoryView {
        entries: h.entries.update(
            index,
            EntryView { delivery_status: status, ..h.entries[index] },
        ),
        ..h
    }
}

/// A history after a transport has taken the message with an ID: its first entry
/// is marked as sent.
pub open spec fn marked_sent(h: HistoryView, id: Seq<char>) -> HistoryView {
    let index = find_id(h.entries, id, 0);
    if index < h.entries.len() {
        with_status(h, index, STATUS_SENT@)
    } else {
        h
    }
}

/// The entry of a message that is about to be sent.
pub open spec fn queued_entry(
    timestamp: u64,
    text: Seq<char>,
    message_id: Seq<char>,
    peer: Seq<char>,
    envelope: Seq<u8>,
    recipient: Seq<char>,
) -> EntryView {
    EntryView {
        timestamp,
        sender: LOCAL_SENDER@,
        text,
        message_id,
        peer,
        ciphertext: primitives::base64_url(envelope),
        delivery_status: STATUS_QUEUED@,
        transport_recipient: recipient,
    }
}

/// The entry of a message that was received.
pub open spec fn received_entry(
    timestamp: u64,
    sender: Seq<char>,
    text: Seq<char>,
    message_id: Seq<char>,
    peer: Seq<char>,
    envelope: Seq<u8>,
) -> EntryView {
    EntryView {
        timestamp,
        sender,
        text,
        message_id,
        peer,
        ciphertext: primitives::base64_url(envelope),
        delivery_status: STATUS_RECEIVED@,
        transport_recipient: Seq::empty(),
    }
}

/// A history with one more entry.
pub open spec fn with_entry(h: HistoryView, entry: EntryView) -> HistoryView {
    HistoryView { entries: h.entries.push(entry), ..h }
}

/// A history whose cursor has moved past a transport's message. A transport ID
/// that is not a number leaves it where it is.
pub open spec fn advanced(h: HistoryView, transport_id: Seq<char>) -> HistoryView {
    match text::parsed_i64(transport_id) {
        Some(cursor) => HistoryView {
            transport_cursor: if cursor > h.transport_cursor {
                cursor
            } else {
                h.transport_cursor
            },
            ..h
        },
        None => h,
    }
}

fn push_entry(history: &mut HistoryFile, entry: HistoryEntry)
    ensures
        final(history)@ == with_entry(old(history)@, entry@),
{
    let ghost before = history.entries@;
    history.entries.push(entry);
    assert(history::entry_views(history.entries@) =~= history::entry_views(before).push(entry@));
}

fn set_status(history: &mut HistoryFile, index: usize, status: &str)
    requires
        index < old(history)@.entries.len(),
    ensures
        final(history)@ == with_status(old(history)@, index as int, status@),
{
    let ghost before = history.entries@;
    let entry = history.entries[index].copy().with_delivery_status(status.to_owned());
    history.entries.set(index, entry);
    assert(history::entry_views(history.entries@) =~= history::entry_views(before).update(
        index as int,
        entry@,
    ));
}

fn position_of(history: &HistoryFile, id: &str) -> (index: usize)
    ensures
        index == find_id(history@.entries, id@, 0),
{
    let mut index: usize = 0;
    while index < history.entries.len() && !same_text(history.entries[index].message_id.as_str(), id)
        invariant
            index <= history@.entries.len(),
            history@.entries.len() == history.entries@.len(),
            find_id(history@.entries, id@, 0) == find_id(history@.entries, id@, index as int),
        decreases history.entries@.len() - index,
    {
        assert(history@.entries[index as int].message_id == history.entries@[index as int].message_id@);
        index += 1;
    }
    if index < history.entries.len() {
        assert(history@.entries[index as int].message_id == history.entries@[index as int].message_id@);
    }
    index
}

proof fn lemma_find_id(entries: Seq<EntryView>, id: Seq<char>, from: int)
    requires
        0 <= from <= entries.len(),
    ensures
        from <= find_id(entries, id, from) <= entries.len(),
        find_id(entries, id, from) < entries.len() ==> entries[find_id(
            entries,
            id,
            from,
        )].message_id == id,
        forall|i: int| from <= i < find_id(entries, id, from) ==> entries[i].message_id != id,
    decreases entries.len() - from,
{
    if from < entries.len() && entries[from].message_id != id {
        lemma_find_id(entries, id, from + 1);
    }
}

/// Marks the message with an ID as taken by the transport.
fn mark_sent(history: &mut HistoryFile, id: &str)
    ensures
        final(history)@ == marked_sent(old(history)@, id@),
{
    let index: usize = position_of(history, id);
    proof {
        lemma_find_id(history@.entries, id@, 0);
    }
    if index < history.entries.len() {
        set_status(history, index, STATUS_SENT);
    }
}

/// Moves the cursor past a transport's message, and says whether it moved.
pub fn advance_cursor(history: &mut HistoryFile, transport_id: &str) -> (moved: bool)
    ensures
        final(history)@ == advanced(old(history)@, transport_id@),
        moved == (final(history)@.transport_cursor != old(history)@.transport_cursor),
{
    match parse_i64(transport_id) {
        Some(cursor) => {
            if cursor > history.transport_cursor {
                history.transport_cursor = cursor;
                true
            } else {
                false
            }
        },
        None => false,
    }
}

// ---------------------------------------------------------------------------
// What is to be done outside, and what came of it
// ---------------------------------------------------------------------------

/// What is to be done next.
#[derive(Clone, Debug, PartialEq, Eq)]
pub enum ChatAction {
    /// Ask the transport how far a message has come.
    AskStatus { message_id: String },
    /// Save the history of the conversation.
    Save,
    /// Hand an envelope to the transport.
    Send { recipient: String, message_id: String, envelope: Vec<u8> },
    /// Fetch the messages behind a cursor.
    Receive { cursor: i64 },
    /// Decrypt an envelope with the session of the peer.
    Decrypt { ciphertext: Vec<u8> },
    /// Tell the transport that a message need not be kept.
    Acknowledge { message: TransportMessage },
    /// Nothing is left to do.
    Done,
    /// The operation ends here.
    Fail(ChatError),
}

/// The contents of a [`ChatAction`].
pub enum ActionView {
    AskStatus { message_id: Seq<char> },
    Save,
    Send { recipient: Seq<char>, message_id: Seq<char>, envelope: Seq<u8> },
    Receive { cursor: i64 },
    Decrypt { ciphertext: Seq<u8> },
    Acknowledge { message: TransportMessageView },
    Done,
    Fail(ChatError),
}

impl View for ChatAction {
    type V = ActionView;

    open spec fn view(&self) -> ActionView {
        match *self {
            ChatAction::AskStatus { message_id } => ActionView::AskStatus {
                message_id: message_id@,
            },
            ChatAction::Save => ActionView::Save,
            ChatAction::Send { recipient, message_id, envelope } => ActionView::Send {
                recipient: recipient@,
                message_id: message_id@,
                envelope: envelope@,
            },
            ChatAction::Receive { cursor } => ActionView::Receive { cursor },
            ChatAction::Decrypt { ciphertext } => ActionView::Decrypt { ciphertext: ciphertext@ },
            ChatAction::Acknowledge { message } => ActionView::Acknowledge { message: message@ },
            ChatAction::Done => ActionView::Done,
            ChatAction::Fail(error) => ActionView::Fail(error),
        }
    }
}

/// What came of an action.
#[derive(Clone, Debug, PartialEq, Eq)]
pub enum ChatReply {
    /// How far the message has come, if the transport could say.
    Status(Option<DeliveryStatus>),
    /// Whether the history was saved.
    Saved(bool),
    /// Whether the transport took the envelope.
    Sent(bool),
    /// The messages that the transport holds, if it could be asked.
    Received(Option<Vec<TransportMessage>>),
    /// The decrypted message.
    Decrypted(SafeChatMessage),
    /// What the session says against the envelope.
    Undecryptable(String),
    /// Whether the transport took the acknowledgement.
    Acknowledged(bool),
}

/// The contents of a [`ChatReply`].
pub enum ReplyView {
    Status(Option<DeliveryStatus>),
    Saved(bool),
    Sent(bool),
    Received(Option<Seq<TransportMessageView>>),
    Decrypted(SafeChatMessageView),
    Undecryptable(Seq<char>),
    Acknowledged(bool),
}

/// The contents of every message of a list.
pub open spec fn transport_views(messages: Seq<TransportMessage>) -> Seq<TransportMessageView> {
    messages.map_values(|message: TransportMessage| message@)
}

impl View for ChatReply {
    type V = ReplyView;

    open spec fn view(&self) -> ReplyView {
        match *self {
            ChatReply::Status(status) => ReplyView::Status(status),
            ChatReply::Saved(ok) => ReplyView::Saved(ok),
            ChatReply::Sent(ok) => ReplyView::Sent(ok),
            ChatReply::Received(messages) => ReplyView::Received(
                match messages {
                    Some(list) => Some(transport_views(list@)),
                    None => None,
                },
            ),
            ChatReply::Decrypted(message) => ReplyView::Decrypted(message@),
            ChatReply::Undecryptable(error) => ReplyView::Undecryptable(error@),
            ChatReply::Acknowledged(ok) => ReplyView::Acknowledged(ok),
        }
    }
}

fn copy_message(message: &TransportMessage) -> (copy: TransportMessage)
    ensures
        copy@ == message@,
{
    TransportMessage {
        transport_id: message.transport_id.clone(),
        sender: message.sender.clone(),
        sender_address: match &message.sender_address {
            Some(address) => Some(address.clone()),
            None => None,
        },
        message_id: message.message_id.clone(),
        ciphertext: copy_bytes(message.ciphertext.as_slice()),
        accepted_at: message.accepted_at,
        expires_at: message.expires_at,
    }
}

// ---------------------------------------------------------------------------
// Sending
// ---------------------------------------------------------------------------

/// How far a message has been taken.
#[derive(Clone, Copy, Debug, PartialEq, Eq, Structural)]
pub enum SendStage {
    SavingQueued,
    Sending,
    SavingSent,
    Ended,
}

/// A message on its way out.
#[derive(Clone, Debug, PartialEq, Eq)]
pub struct ChatSend {
    pub stage: SendStage,
    pub timestamp: u64,
    pub text: String,
    pub message_id: String,
    pub recipient: String,
    pub envelope: Vec<u8>,
}

/// The contents of a [`ChatSend`].
#[verifier::ext_equal]
pub struct SendView {
    pub stage: SendStage,
    pub timestamp: u64,
    pub text: Seq<char>,
    pub message_id: Seq<char>,
    pub recipient: Seq<char>,
    pub envelope: Seq<u8>,
}

impl View for ChatSend {
    type V = SendView;

    open spec fn view(&self) -> SendView {
        SendView {
            stage: self.stage,
            timestamp: self.timestamp,
            text: self.text@,
            message_id: self.message_id@,
            recipient: self.recipient@,
            envelope: self.envelope@,
        }
    }
}

/// One step of sending: the queued message is saved before it is handed over, so
/// that a message which was taken can be retried under the same ID after a crash.
pub open spec fn send_step(s: SendView, h: HistoryView, reply: ReplyView) -> (
    SendView,
    HistoryView,
    ActionView,
) {
    match (s.stage, reply) {
        (SendStage::SavingQueued, ReplyView::Saved(true)) => (
            SendView { stage: SendStage::Sending, ..s },
            h,
            ActionView::Send {
                recipient: s.recipient,
                message_id: s.message_id,
                envelope: s.envelope,
            },
        ),
        (SendStage::Sending, ReplyView::Sent(true)) => (
            SendView { stage: SendStage::SavingSent, ..s },
            marked_sent(h, s.message_id),
            ActionView::Save,
        ),
        (SendStage::SavingSent, ReplyView::Saved(true)) => (
            SendView { stage: SendStage::Ended, ..s },
            h,
            ActionView::Done,
        ),
        (SendStage::SavingQueued, ReplyView::Saved(false)) => (
            SendView { stage: SendStage::Ended, ..s },
            h,
            ActionView::Fail(ChatError::OutsideFailed),
        ),
        (SendStage::Sending, ReplyView::Sent(false)) => (
            SendView { stage: SendStage::Ended, ..s },
            h,
            ActionView::Fail(ChatError::OutsideFailed),
        ),
        (SendStage::SavingSent, ReplyView::Saved(false)) => (
            SendView { stage: SendStage::Ended, ..s },
            h,
            ActionView::Fail(ChatError::OutsideFailed),
        ),
        _ => (s, h, ActionView::Fail(ChatError::UnexpectedReply)),
    }
}

impl ChatSend {
    /// Takes in what came of the last action and says what is next.
    pub fn step(&mut self, history: &mut HistoryFile, reply: ChatReply) -> (action: ChatAction)
        ensures
            (final(self)@, final(history)@, action@) == send_step(
                old(self)@,
                old(history)@,
                reply@,
            ),
    {
        match (self.stage, reply) {
            (SendStage::SavingQueued, ChatReply::Saved(true)) => {
                self.stage = SendStage::Sending;
                ChatAction::Send {
                    recipient: self.recipient.clone(),
                    message_id: self.message_id.clone(),
                    envelope: copy_bytes(self.envelope.as_slice()),
                }
            },
            (SendStage::Sending, ChatReply::Sent(true)) => {
                self.stage = SendStage::SavingSent;
                mark_sent(history, self.message_id.as_str());
                ChatAction::Save
            },
            (SendStage::SavingSent, ChatReply::Saved(true)) => {
                self.stage = SendStage::Ended;
                ChatAction::Done
            },
            (SendStage::SavingQueued, ChatReply::Saved(false)) => {
                self.stage = SendStage::Ended;
                ChatAction::Fail(ChatError::OutsideFailed)
            },
            (SendStage::Sending, ChatReply::Sent(false)) => {
                self.stage = SendStage::Ended;
                ChatAction::Fail(ChatError::OutsideFailed)
            },
            (SendStage::SavingSent, ChatReply::Saved(false)) => {
                self.stage = SendStage::Ended;
                ChatAction::Fail(ChatError::OutsideFailed)
            },
            _ => ChatAction::Fail(ChatError::UnexpectedReply),
        }
    }

    /// What a front end shows once the message is sent.
    pub fn event(&self) -> (event: ChatEvent)
        ensures
            event@ == (EventView::Sent { timestamp: self@.timestamp, text: self@.text }),
    {
        ChatEvent::Sent { timestamp: self.timestamp, text: self.text.clone() }
    }
}

// ---------------------------------------------------------------------------
// Polling
// ---------------------------------------------------------------------------

/// A message of the outbox.
#[derive(Clone, Debug, PartialEq, Eq)]
pub struct QueuedMessage {
    pub message_id: String,
    pub recipient: String,
    pub ciphertext: String,
}

/// The contents of a [`QueuedMessage`].
#[verifier::ext_equal]
pub struct QueuedView {
    pub message_id: Seq<char>,
    pub recipient: Seq<char>,
    pub ciphertext: Seq<char>,
}

impl View for QueuedMessage {
    type V = QueuedView;

    open spec fn view(&self) -> QueuedView {
        QueuedView {
            message_id: self.message_id@,
            recipient: self.recipient@,
            ciphertext: self.ciphertext@,
        }
    }
}

/// The contents of every message of an outbox.
pub open spec fn queued_views(queued: Seq<QueuedMessage>) -> Seq<QueuedView> {
    queued.map_values(|message: QueuedMessage| message@)
}

/// Whether the transport is asked how far an entry has come.
pub open spec fn awaits_read(entry: EntryView) -> bool {
    entry.sender == LOCAL_SENDER@ && entry.delivery_status == STATUS_SENT@
        && entry.message_id.len() > 0
}

/// Whether an entry is in the outbox.
pub open spec fn is_queued(entry: EntryView) -> bool {
    entry.sender == LOCAL_SENDER@ && entry.delivery_status == STATUS_QUEUED@
}

/// What an entry of the outbox hands to the transport.
pub open spec fn queued_of(entry: EntryView) -> QueuedView {
    QueuedView {
        message_id: entry.message_id,
        recipient: entry.transport_recipient,
        ciphertext: entry.ciphertext,
    }
}

/// The outbox of a history, oldest first.
pub open spec fn outbox(entries: Seq<EntryView>) -> Seq<QueuedView>
    decreases entries.len(),
{
    if entries.len() == 0 {
        Seq::empty()
    } else {
        let before = outbox(entries.drop_last());
        if is_queued(entries.last()) {
            before.push(queued_of(entries.last()))
        } else {
            before
        }
    }
}

/// The first entry at or behind `from` that the transport is asked about, or the
/// length.
pub open spec fn next_unread(entries: Seq<EntryView>, from: int) -> int
    decreases entries.len() - from,
{
    if from >= entries.len() {
        entries.len() as int
    } else if awaits_read(entries[from]) {
        from
    } else {
        next_unread(entries, from + 1)
    }
}

/// The first message of the outbox at or behind `from` whose envelope can be
/// read, or the length.
pub open spec fn next_sendable(queued: Seq<QueuedView>, from: int) -> int
    decreases queued.len() - from,
{
    if from >= queued.len() {
        queued.len() as int
    } else if transport::line_bytes(queued[from].ciphertext) is Some {
        from
    } else {
        next_sendable(queued, from + 1)
    }
}

/// Whether a message comes from the peer, by its address or by the ID that the
/// relay knows it under.
pub open spec fn is_from(
    message: TransportMessageView,
    address: Seq<char>,
    relay_sender_id: Option<Seq<char>>,
) -> bool {
    message.sender_address == Some(address) || relay_sender_id == Some(message.sender)
}

/// The first message at or behind `from` that comes from the peer, or the length.
pub open spec fn next_from_peer(
    messages: Seq<TransportMessageView>,
    address: Seq<char>,
    relay_sender_id: Option<Seq<char>>,
    from: int,
) -> int
    decreases messages.len() - from,
{
    if from >= messages.len() {
        messages.len() as int
    } else if is_from(messages[from], address, relay_sender_id) {
        from
    } else {
        next_from_peer(messages, address, relay_sender_id, from + 1)
    }
}

/// What a poll is waiting for.
#[derive(Clone, Copy, Debug, PartialEq, Eq, Structural)]
pub enum PollStage {
    AskingStatus,
    SavingReads,
    Sending,
    SavingSent,
    Receiving,
    Decrypting,
    SavingMessage,
    Acknowledging,
    AcknowledgingStale,
    SavingCursor,
    Ended,
}

/// One round of working off what a transport holds.
#[derive(Clone, Debug, PartialEq, Eq)]
pub struct ChatPoll {
    pub stage: PollStage,
    /// The entry, outbox message or received message that is being worked on.
    pub position: usize,
    pub peer_name: String,
    pub peer_address: String,
    pub relay_sender_id: Option<String>,
    pub queued: Vec<QueuedMessage>,
    pub messages: Vec<TransportMessage>,
    pub events: Vec<ChatEvent>,
    pub history_changed: bool,
}

/// The contents of a [`ChatPoll`].
#[verifier::ext_equal]
pub struct PollView {
    pub stage: PollStage,
    pub position: int,
    pub peer_name: Seq<char>,
    pub peer_address: Seq<char>,
    pub relay_sender_id: Option<Seq<char>>,
    pub queued: Seq<QueuedView>,
    pub messages: Seq<TransportMessageView>,
    pub events: Seq<EventView>,
    pub history_changed: bool,
}

impl View for ChatPoll {
    type V = PollView;

    open spec fn view(&self) -> PollView {
        PollView {
            stage: self.stage,
            position: self.position as int,
            peer_name: self.peer_name@,
            peer_address: self.peer_address@,
            relay_sender_id: protocol::optional_text(self.relay_sender_id),
            queued: queued_views(self.queued@),
            messages: transport_views(self.messages@),
            events: event_views(self.events@),
            history_changed: self.history_changed,
        }
    }
}

/// A poll that has ended, and why.
pub open spec fn ended(p: PollView, action: ActionView) -> (PollView, ActionView) {
    (PollView { stage: PollStage::Ended, ..p }, action)
}

/// Goes on with the received messages at or behind `from`, and saves the cursor
/// behind the last one if anything changed.
pub open spec fn decrypt_next(p: PollView, from: int) -> (PollView, ActionView) {
    let index = next_from_peer(p.messages, p.peer_address, p.relay_sender_id, from);
    if index < p.messages.len() {
        (
            PollView { stage: PollStage::Decrypting, position: index, ..p },
            ActionView::Decrypt { ciphertext: p.messages[index].ciphertext },
        )
    } else if p.history_changed {
        (PollView { stage: PollStage::SavingCursor, ..p }, ActionView::Save)
    } else {
        ended(p, ActionView::Done)
    }
}

/// Goes on with the outbox at or behind `from`, and then with receiving.
pub open spec fn send_next(p: PollView, h: HistoryView, from: int) -> (PollView, ActionView) {
    let index = next_sendable(p.queued, from);
    if index < p.queued.len() {
        (
            PollView { stage: PollStage::Sending, position: index, ..p },
            ActionView::Send {
                recipient: p.queued[index].recipient,
                message_id: p.queued[index].message_id,
                envelope: transport::line_bytes(p.queued[index].ciphertext)->0,
            },
        )
    } else {
        (
            PollView { stage: PollStage::Receiving, ..p },
            ActionView::Receive { cursor: h.transport_cursor },
        )
    }
}

/// Goes on with the outbox of the history.
pub open spec fn start_outbox(p: PollView, h: HistoryView) -> (PollView, ActionView) {
    send_next(PollView { queued: outbox(h.entries), ..p }, h, 0)
}

/// Goes on with the entries at or behind `from`, and then saves what was read
/// and works off the outbox.
pub open spec fn ask_next(p: PollView, h: HistoryView, from: int) -> (PollView, ActionView) {
    let index = next_unread(h.entries, from);
    if index < h.entries.len() {
        (
            PollView { stage: PollStage::AskingStatus, position: index, ..p },
            ActionView::AskStatus { message_id: h.entries[index].message_id },
        )
    } else if p.history_changed {
        (PollView { stage: PollStage::SavingReads, ..p }, ActionView::Save)
    } else {
        start_outbox(p, h)
    }
}

/// What a decrypted message does to the history: one whose ID is already there is
/// only acknowledged, any other is entered and saved first.
pub open spec fn take_message(
    p: PollView,
    h: HistoryView,
    decoded: SafeChatMessageView,
    now: u64,
) -> (PollView, HistoryView, ActionView) {
    let message = p.messages[p.position];
    let id = text::hex(decoded.id);
    if has_id(h.entries, id) {
        (
            PollView { stage: PollStage::Acknowledging, ..p },
            h,
            ActionView::Acknowledge { message },
        )
    } else if !valid_utf8(decoded.plaintext) {
        let (ended, action) = ended(p, ActionView::Fail(ChatError::NotUtf8));
        (ended, h, action)
    } else {
        let body = decode_utf8(decoded.plaintext);
        (
            PollView {
                stage: PollStage::SavingMessage,
                events: p.events.push(
                    EventView::Received { timestamp: now, sender: p.peer_name, text: body },
                ),
                ..p
            },
            with_entry(
                h,
                received_entry(now, p.peer_name, body, id, p.peer_address, message.ciphertext),
            ),
            ActionView::Save,
        )
    }
}

/// What an acknowledged message does: the cursor moves past it, and a stale one
/// is reported.
pub open spec fn acknowledged(p: PollView, h: HistoryView, stale: bool) -> (
    PollView,
    HistoryView,
    ActionView,
) {
    let id = p.messages[p.position].transport_id;
    let moved = advanced(h, id);
    let after = PollView {
        history_changed: p.history_changed || moved.transport_cursor != h.transport_cursor,
        events: if stale {
            p.events.push(EventView::Stale { transport_id: id })
        } else {
            p.events
        },
        ..p
    };
    let (next, action) = decrypt_next(after, p.position + 1);
    (next, moved, action)
}

/// A poll whose position lies where its stage says.
pub open spec fn poll_wf(p: PollView, h: HistoryView) -> bool {
    &&& p.stage == PollStage::AskingStatus ==> 0 <= p.position < h.entries.len()
    &&& p.stage == PollStage::Sending || p.stage == PollStage::SavingSent ==> 0 <= p.position
        < p.queued.len()
    &&& p.stage == PollStage::Decrypting || p.stage == PollStage::SavingMessage || p.stage
        == PollStage::Acknowledging || p.stage == PollStage::AcknowledgingStale ==> 0 <= p.position
        < p.messages.len()
}

/// One step of a poll.
pub open spec fn poll_step(p: PollView, h: HistoryView, reply: ReplyView, now: u64) -> (
    PollView,
    HistoryView,
    ActionView,
) {
    let failed = ended(p, ActionView::Fail(ChatError::OutsideFailed));
    match (p.stage, reply) {
        (PollStage::AskingStatus, ReplyView::Status(status)) => if status == Some(
            DeliveryStatus::Read,
        ) {
            let entry = h.entries[p.position];
            let read = with_status(h, p.position, STATUS_READ@);
            let after = PollView {
                history_changed: true,
                events: p.events.push(
                    EventView::Read { timestamp: entry.timestamp, text: entry.text },
                ),
                ..p
            };
            let (next, action) = ask_next(after, read, p.position + 1);
            (next, read, action)
        } else {
            let (next, action) = ask_next(p, h, p.position + 1);
            (next, h, action)
        },
        (PollStage::SavingReads, ReplyView::Saved(true)) => {
            let (next, action) = start_outbox(p, h);
            (next, h, action)
        },
        (PollStage::Sending, ReplyView::Sent(true)) => (
            PollView { stage: PollStage::SavingSent, ..p },
            marked_sent(h, p.queued[p.position].message_id),
            ActionView::Save,
        ),
        (PollStage::Sending, ReplyView::Sent(false)) => {
            let (next, action) = send_next(p, h, p.position + 1);
            (next, h, action)
        },
        (PollStage::SavingSent, ReplyView::Saved(true)) => {
            let (next, action) = send_next(p, h, p.position + 1);
            (next, h, action)
        },
        (PollStage::Receiving, ReplyView::Received(Some(messages))) => {
            let (next, action) = decrypt_next(PollView { messages, ..p }, 0);
            (next, h, action)
        },
        (PollStage::Decrypting, ReplyView::Decrypted(decoded)) => take_message(p, h, decoded, now),
        (PollStage::Decrypting, ReplyView::Undecryptable(error)) => if text::occurs_in(
            error,
            OLD_COUNTER@,
        ) {
            (
                PollView { stage: PollStage::AcknowledgingStale, ..p },
                h,
                ActionView::Acknowledge { message: p.messages[p.position] },
            )
        } else {
            (failed.0, h, failed.1)
        },
        (PollStage::SavingMessage, ReplyView::Saved(true)) => (
            PollView { stage: PollStage::Acknowledging, ..p },
            h,
            ActionView::Acknowledge { message: p.messages[p.position] },
        ),
        (PollStage::Acknowledging, ReplyView::Acknowledged(true)) => acknowledged(p, h, false),
        (PollStage::AcknowledgingStale, ReplyView::Acknowledged(true)) => acknowledged(p, h, true),
        (PollStage::SavingCursor, ReplyView::Saved(true)) => {
            let (next, action) = ended(p, ActionView::Done);
            (next, h, action)
        },
        (PollStage::SavingReads, ReplyView::Saved(false)) => (failed.0, h, failed.1),
        (PollStage::SavingSent, ReplyView::Saved(false)) => (failed.0, h, failed.1),
        (PollStage::SavingMessage, ReplyView::Saved(false)) => (failed.0, h, failed.1),
        (PollStage::SavingCursor, ReplyView::Saved(false)) => (failed.0, h, failed.1),
        (PollStage::Receiving, ReplyView::Received(None)) => (failed.0, h, failed.1),
        (PollStage::Acknowledging, ReplyView::Acknowledged(false)) => (failed.0, h, failed.1),
        (PollStage::AcknowledgingStale, ReplyView::Acknowledged(false)) => (failed.0, h, failed.1),
        _ => (p, h, ActionView::Fail(ChatError::UnexpectedReply)),
    }
}

fn collect_outbox(history: &HistoryFile) -> (queued: Vec<QueuedMessage>)
    ensures
        queued_views(queued@) == outbox(history@.entries),
{
    let mut queued: Vec<QueuedMessage> = Vec::new();
    let mut index: usize = 0;
    let ghost entries = history@.entries;
    assert(queued_views(queued@) =~= outbox(entries.take(0)));
    while index < history.entries.len()
        invariant
            index <= history.entries@.len(),
            entries == history@.entries,
            queued_views(queued@) == outbox(entries.take(index as int)),
        decreases history.entries@.len() - index,
    {
        let entry = &history.entries[index];
        let ghost before = queued@;
        proof {
            assert(entries.take(index + 1).drop_last() =~= entries.take(index as int));
            assert(entries.take(index + 1).last() == entry@);
        }
        if same_text(entry.sender.as_str(), LOCAL_SENDER) && same_text(
            entry.delivery_status.as_str(),
            STATUS_QUEUED,
        ) {
            queued.push(
                QueuedMessage {
                    message_id: entry.message_id.clone(),
                    recipient: entry.transport_recipient.clone(),
                    ciphertext: entry.ciphertext.clone(),
                },
            );
            assert(queued_views(queued@) =~= queued_views(before).push(queued_of(entry@)));
        }
        index += 1;
    }
    assert(entries.take(index as int) =~= entries);
    queued
}

fn from_peer(message: &TransportMessage, address: &str, relay_sender_id: &Option<String>) -> (result:
    bool)
    ensures
        result == is_from(message@, address@, protocol::optional_text(*relay_sender_id)),
{
    same_optional_text(&message.sender_address, address) || same_optional_text(
        relay_sender_id,
        message.sender.as_str(),
    )
}

impl ChatPoll {
    /// Goes on with the received messages at or behind `from`.
    fn decrypt_next(&mut self, from: usize) -> (action: ChatAction)
        requires
            from <= old(self)@.messages.len(),
        ensures
            (final(self)@, action@) == decrypt_next(old(self)@, from as int),
    {
        let mut index: usize = from;
        let ghost p = self@;
        while index < self.messages.len() && !from_peer(
            &self.messages[index],
            self.peer_address.as_str(),
            &self.relay_sender_id,
        )
            invariant
                index <= self.messages@.len(),
                p == self@,
                next_from_peer(p.messages, p.peer_address, p.relay_sender_id, from as int)
                    == next_from_peer(p.messages, p.peer_address, p.relay_sender_id, index as int),
            decreases self.messages@.len() - index,
        {
            assert(p.messages[index as int] == self.messages@[index as int]@);
            index += 1;
        }
        if index < self.messages.len() {
            assert(p.messages[index as int] == self.messages@[index as int]@);
            self.stage = PollStage::Decrypting;
            self.position = index;
            return ChatAction::Decrypt {
                ciphertext: copy_bytes(self.messages[index].ciphertext.as_slice()),
            };
        }
        if self.history_changed {
            self.stage = PollStage::SavingCursor;
            return ChatAction::Save;
        }
        self.stage = PollStage::Ended;
        ChatAction::Done
    }

    /// Goes on with the outbox at or behind `from`.
    fn send_next(&mut self, history: &HistoryFile, from: usize) -> (action: ChatAction)
        requires
            from <= old(self)@.queued.len(),
        ensures
            (final(self)@, action@) == send_next(old(self)@, history@, from as int),
    {
        let mut index: usize = from;
        let ghost p = self@;
        while index < self.queued.len()
            invariant
                index <= self.queued@.len(),
                p == self@,
                p == old(self)@,
                from <= self.queued@.len(),
                next_sendable(p.queued, from as int) == next_sendable(p.queued, index as int),
            decreases self.queued@.len() - index,
        {
            assert(p.queued[index as int] == self.queued@[index as int]@);
            match TextTransport.decode(self.queued[index].ciphertext.as_str()) {
                Ok(envelope) => {
                    self.stage = PollStage::Sending;
                    self.position = index;
                    return ChatAction::Send {
                        recipient: self.queued[index].recipient.clone(),
                        message_id: self.queued[index].message_id.clone(),
                        envelope,
                    };
                },
                Err(_) => {
                    index += 1;
                },
            }
        }
        self.stage = PollStage::Receiving;
        ChatAction::Receive { cursor: history.transport_cursor }
    }

    /// Goes on with the outbox of the history.
    fn start_outbox(&mut self, history: &HistoryFile) -> (action: ChatAction)
        ensures
            (final(self)@, action@) == start_outbox(old(self)@, history@),
    {
        self.queued = collect_outbox(history);
        self.send_next(history, 0)
    }

    /// Goes on with the entries at or behind `from`.
    fn ask_next(&mut self, history: &HistoryFile, from: usize) -> (action: ChatAction)
        requires
            from <= history@.entries.len(),
        ensures
            (final(self)@, action@) == ask_next(old(self)@, history@, from as int),
    {
        let mut index: usize = from;
        let ghost entries = history@.entries;
        while index < history.entries.len() && !(same_text(
            history.entries[index].sender.as_str(),
            LOCAL_SENDER,
        ) && same_text(history.entries[index].delivery_status.as_str(), STATUS_SENT)
            && !history.entries[index].message_id.as_str().is_empty())
            invariant
                index <= history.entries@.len(),
                entries == history@.entries,
                next_unread(entries, from as int) == next_unread(entries, index as int),
            decreases history.entries@.len() - index,
        {
            assert(entries[index as int] == history.entries@[index as int]@);
            index += 1;
        }
        if index < history.entries.len() {
            assert(entries[index as int] == history.entries@[index as int]@);
            self.stage = PollStage::AskingStatus;
            self.position = index;
            return ChatAction::AskStatus { message_id: history.entries[index].message_id.clone() };
        }
        if self.history_changed {
            self.stage = PollStage::SavingReads;
            return ChatAction::Save;
        }
        self.start_outbox(history)
    }

    fn push_event(&mut self, event: ChatEvent)
        ensures
            final(self)@ == (PollView { events: old(self)@.events.push(event@), ..old(self)@ }),
    {
        let ghost before = self.events@;
        self.events.push(event);
        assert(event_views(self.events@) =~= event_views(before).push(event@));
    }

    fn fail(&mut self, error: ChatError) -> (action: ChatAction)
        ensures
            (final(self)@, action@) == ended(old(self)@, ActionView::Fail(error)),
    {
        self.stage = PollStage::Ended;
        ChatAction::Fail(error)
    }
}

impl ChatPoll {
    /// Enters a decrypted message, unless it is there already.
    fn take_message(
        &mut self,
        history: &mut HistoryFile,
        decoded: SafeChatMessage,
        now: u64,
    ) -> (action: ChatAction)
        requires
            old(self)@.position < old(self)@.messages.len(),
        ensures
            (final(self)@, final(history)@, action@) == take_message(
                old(self)@,
                old(history)@,
                decoded@,
                now,
            ),
    {
        let id = decoded.id.encode();
        let message = copy_message(&self.messages[self.position]);
        let index: usize = position_of(history, id.as_str());
        proof {
            lemma_find_id(history@.entries, id@, 0);
            assert(self@.messages[self@.position] == message@);
        }
        if index < history.entries.len() {
            assert(history@.entries[index as int].message_id == id@);
            self.stage = PollStage::Acknowledging;
            return ChatAction::Acknowledge { message };
        }
        match utf8_string(decoded.plaintext) {
            None => self.fail(ChatError::NotUtf8),
            Some(body) => {
                push_entry(
                    history,
                    HistoryEntry::new(now, self.peer_name.clone(), body.clone()).with_message_id(
                        id,
                    ).with_peer(self.peer_address.clone()).with_ciphertext(
                        envelope_text(message.ciphertext.as_slice()),
                    ).with_delivery_status(STATUS_RECEIVED.to_owned()),
                );
                let sender = self.peer_name.clone();
                self.push_event(ChatEvent::Received { timestamp: now, sender, text: body });
                self.stage = PollStage::SavingMessage;
                ChatAction::Save
            },
        }
    }

    /// Moves past an acknowledged message.
    fn acknowledged(&mut self, history: &mut HistoryFile, stale: bool) -> (action: ChatAction)
        requires
            old(self)@.position < old(self)@.messages.len(),
        ensures
            (final(self)@, final(history)@, action@) == acknowledged(
                old(self)@,
                old(history)@,
                stale,
            ),
    {
        let transport_id = self.messages[self.position].transport_id.clone();
        assert(self@.messages[self@.position].transport_id == transport_id@);
        let moved = advance_cursor(history, transport_id.as_str());
        if moved {
            self.history_changed = true;
        }
        if stale {
            self.push_event(ChatEvent::Stale { transport_id });
        }
        assert(self.position < self.messages.len());
        let next: usize = self.position + 1;
        self.decrypt_next(next)
    }

    /// Marks an entry as read and goes on behind it.
    fn entry_read(&mut self, history: &mut HistoryFile) -> (action: ChatAction)
        requires
            old(self)@.position < old(history)@.entries.len(),
        ensures
            ({
                let p = old(self)@;
                let h = old(history)@;
                let entry = h.entries[p.position];
                let read = with_status(h, p.position, STATUS_READ@);
                let after = PollView {
                    history_changed: true,
                    events: p.events.push(
                        EventView::Read { timestamp: entry.timestamp, text: entry.text },
                    ),
                    ..p
                };
                &&& final(history)@ == read
                &&& (final(self)@, action@) == ask_next(after, read, p.position + 1)
            }),
    {
        let index: usize = self.position;
        assert(index < history.entries.len());
        let next: usize = index + 1;
        let timestamp: u64 = history.entries[index].timestamp;
        let body = history.entries[index].text.clone();
        set_status(history, index, STATUS_READ);
        self.history_changed = true;
        self.push_event(ChatEvent::Read { timestamp, text: body });
        self.ask_next(history, next)
    }

    /// Takes in what came of the last action and says what is next.
    pub fn step(&mut self, history: &mut HistoryFile, reply: ChatReply, now: u64) -> (action:
        ChatAction)
        requires
            poll_wf(old(self)@, old(history)@),
        ensures
            poll_wf(final(self)@, final(history)@),
            (final(self)@, final(history)@, action@) == poll_step(
                old(self)@,
                old(history)@,
                reply@,
                now,
            ),
    {
        proof {
            lemma_poll_step_wf(self@, history@, reply@, now);
        }
        match (self.stage, reply) {
            (PollStage::AskingStatus, ChatReply::Status(status)) => match status {
                Some(DeliveryStatus::Read) => self.entry_read(history),
                _ => {
                    assert(self.position < history.entries.len());
                    let next: usize = self.position + 1;
                    self.ask_next(history, next)
                },
            },
            (PollStage::SavingReads, ChatReply::Saved(true)) => self.start_outbox(history),
            (PollStage::Sending, ChatReply::Sent(true)) => {
                self.stage = PollStage::SavingSent;
                assert(self@.queued[self@.position]
                    == self.queued@[self.position as int]@);
                mark_sent(history, self.queued[self.position].message_id.as_str());
                ChatAction::Save
            },
            (PollStage::Sending, ChatReply::Sent(false)) => {
                assert(self.position < self.queued.len());
                let next: usize = self.position + 1;
                self.send_next(history, next)
            },
            (PollStage::SavingSent, ChatReply::Saved(true)) => {
                assert(self.position < self.queued.len());
                let next: usize = self.position + 1;
                self.send_next(history, next)
            },
            (PollStage::Receiving, ChatReply::Received(Some(messages))) => {
                self.messages = messages;
                self.decrypt_next(0)
            },
            (PollStage::Decrypting, ChatReply::Decrypted(decoded)) => self.take_message(
                history,
                decoded,
                now,
            ),
            (PollStage::Decrypting, ChatReply::Undecryptable(error)) => {
                if contains_text(error.as_str(), OLD_COUNTER) {
                    self.stage = PollStage::AcknowledgingStale;
                    ChatAction::Acknowledge { message: copy_message(&self.messages[self.position]) }
                } else {
                    self.fail(ChatError::OutsideFailed)
                }
            },
            (PollStage::SavingMessage, ChatReply::Saved(true)) => {
                self.stage = PollStage::Acknowledging;
                ChatAction::Acknowledge { message: copy_message(&self.messages[self.position]) }
            },
            (PollStage::Acknowledging, ChatReply::Acknowledged(true)) => self.acknowledged(
                history,
                false,
            ),
            (PollStage::AcknowledgingStale, ChatReply::Acknowledged(true)) => self.acknowledged(
                history,
                true,
            ),
            (PollStage::SavingCursor, ChatReply::Saved(true)) => {
                self.stage = PollStage::Ended;
                ChatAction::Done
            },
            (PollStage::SavingReads, ChatReply::Saved(false)) => self.fail(
                ChatError::OutsideFailed,
            ),
            (PollStage::SavingSent, ChatReply::Saved(false)) => self.fail(ChatError::OutsideFailed),
            (PollStage::SavingMessage, ChatReply::Saved(false)) => self.fail(
                ChatError::OutsideFailed,
            ),
            (PollStage::SavingCursor, ChatReply::Saved(false)) => self.fail(
                ChatError::OutsideFailed,
            ),
            (PollStage::Receiving, ChatReply::Received(None)) => self.fail(
                ChatError::OutsideFailed,
            ),
            (PollStage::Acknowledging, ChatReply::Acknowledged(false)) => self.fail(
                ChatError::OutsideFailed,
            ),
            (PollStage::AcknowledgingStale, ChatReply::Acknowledged(false)) => self.fail(
                ChatError::OutsideFailed,
            ),
            _ => ChatAction::Fail(ChatError::UnexpectedReply),
        }
    }
}

proof fn lemma_next_unread(entries: Seq<EntryView>, from: int)
    requires
        0 <= from <= entries.len(),
    ensures
        from <= next_unread(entries, from) <= entries.len(),
        next_unread(entries, from) < entries.len() ==> awaits_read(
            entries[next_unread(entries, from)],
        ),
    decreases entries.len() - from,
{
    if from < entries.len() && !awaits_read(entries[from]) {
        lemma_next_unread(entries, from + 1);
    }
}

proof fn lemma_next_sendable(queued: Seq<QueuedView>, from: int)
    requires
        0 <= from <= queued.len(),
    ensures
        from <= next_sendable(queued, from) <= queued.len(),
        next_sendable(queued, from) < queued.len() ==> transport::line_bytes(
            queued[next_sendable(queued, from)].ciphertext,
        ) is Some,
    decreases queued.len() - from,
{
    if from < queued.len() && transport::line_bytes(queued[from].ciphertext) is None {
        lemma_next_sendable(queued, from + 1);
    }
}

proof fn lemma_next_from_peer(
    messages: Seq<TransportMessageView>,
    address: Seq<char>,
    relay_sender_id: Option<Seq<char>>,
    from: int,
)
    requires
        0 <= from <= messages.len(),
    ensures
        ({
            let index = next_from_peer(messages, address, relay_sender_id, from);
            &&& from <= index <= messages.len()
            &&& index < messages.len() ==> is_from(messages[index], address, relay_sender_id)
        }),
    decreases messages.len() - from,
{
    if from < messages.len() && !is_from(messages[from], address, relay_sender_id) {
        lemma_next_from_peer(messages, address, relay_sender_id, from + 1);
    }
}

proof fn lemma_poll_step_wf(p: PollView, h: HistoryView, reply: ReplyView, now: u64)
    requires
        poll_wf(p, h),
    ensures
        poll_wf(poll_step(p, h, reply, now).0, poll_step(p, h, reply, now).1),
{
    match p.stage {
        PollStage::AskingStatus => {
            let read = with_status(h, p.position, STATUS_READ@);
            lemma_next_unread(h.entries, p.position + 1);
            lemma_next_unread(read.entries, p.position + 1);
            lemma_next_sendable(outbox(h.entries), 0);
            lemma_next_sendable(outbox(read.entries), 0);
        },
        PollStage::SavingReads => lemma_next_sendable(outbox(h.entries), 0),
        PollStage::Sending => lemma_next_sendable(p.queued, p.position + 1),
        PollStage::SavingSent => lemma_next_sendable(p.queued, p.position + 1),
        PollStage::Receiving => {
            if let ReplyView::Received(Some(messages)) = reply {
                lemma_next_from_peer(messages, p.peer_address, p.relay_sender_id, 0);
            }
        },
        PollStage::Acknowledging => lemma_next_from_peer(
            p.messages,
            p.peer_address,
            p.relay_sender_id,
            p.position + 1,
        ),
        PollStage::AcknowledgingStale => lemma_next_from_peer(
            p.messages,
            p.peer_address,
            p.relay_sender_id,
            p.position + 1,
        ),
        _ => {},
    }
}

// ---------------------------------------------------------------------------
// The service
// ---------------------------------------------------------------------------

/// The conversation that a service works for.
#[derive(Clone, Debug, PartialEq, Eq)]
pub struct ChatService {
    pub conversation: String,
}

/// A poll before anything was done.
pub open spec fn new_poll(peer: BundleView, relay_sender_id: Option<Seq<char>>) -> PollView {
    PollView {
        stage: PollStage::Ended,
        position: 0,
        peer_name: peer.name,
        peer_address: signal::address_text(peer.name, peer.device_id),
        relay_sender_id,
        queued: Seq::empty(),
        messages: Seq::empty(),
        events: Seq::empty(),
        history_changed: false,
    }
}

impl ChatService {
    pub fn new(conversation: String) -> (service: ChatService)
        ensures
            service.conversation@ == conversation@,
    {
        ChatService { conversation }
    }

    /// Queues a message that was encrypted for the peer. The history is to be
    /// saved next.
    pub fn send_text(
        &self,
        history: &mut HistoryFile,
        peer: &SignalPreKeyBundle,
        recipient: &str,
        message: &SafeChatMessage,
        envelope: Vec<u8>,
        now: u64,
    ) -> (started: (ChatSend, ChatAction))
        ensures
            started.0@ == (SendView {
                stage: SendStage::SavingQueued,
                timestamp: now,
                text: text::lossy_text(message@.plaintext),
                message_id: text::hex(message@.id),
                recipient: recipient@,
                envelope: envelope@,
            }),
            started.1@ == ActionView::Save,
            final(history)@ == with_entry(
                old(history)@,
                queued_entry(
                    now,
                    text::lossy_text(message@.plaintext),
                    text::hex(message@.id),
                    signal::address_text(peer@.name, peer@.device_id),
                    envelope@,
                    recipient@,
                ),
            ),
            valid_utf8(message@.plaintext) ==> {
                &&& started.0@.text == decode_utf8(message@.plaintext)
                &&& final(history)@.entries.last().text == decode_utf8(message@.plaintext)
            },
    {
        let message_id = message.id.encode();
        let body = utf8_lossy(message.plaintext.as_slice());
        push_entry(
            history,
            HistoryEntry::new(now, LOCAL_SENDER.to_owned(), body.clone()).with_message_id(
                message_id.clone(),
            ).with_peer(peer.address()).with_ciphertext(
                envelope_text(envelope.as_slice()),
            ).with_delivery_status(STATUS_QUEUED.to_owned()).with_transport_recipient(
                recipient.to_owned(),
            ),
        );
        (
            ChatSend {
                stage: SendStage::SavingQueued,
                timestamp: now,
                text: body,
                message_id,
                recipient: recipient.to_owned(),
                envelope,
            },
            ChatAction::Save,
        )
    }

    /// Starts a poll of the transport on behalf of a conversation.
    pub fn poll(
        &self,
        history: &HistoryFile,
        peer: &SignalPreKeyBundle,
        relay_sender_id: Option<String>,
    ) -> (started: (ChatPoll, ChatAction))
        ensures
            poll_wf(started.0@, history@),
            (started.0@, started.1@) == ask_next(
                new_poll(peer@, protocol::optional_text(relay_sender_id)),
                history@,
                0,
            ),
    {
        let mut poll = ChatPoll {
            stage: PollStage::Ended,
            position: 0,
            peer_name: peer.name.clone(),
            peer_address: peer.address(),
            relay_sender_id,
            queued: Vec::new(),
            messages: Vec::new(),
            events: Vec::new(),
            history_changed: false,
        };
        proof {
            assert(queued_views(poll.queued@) =~= Seq::empty());
            assert(transport_views(poll.messages@) =~= Seq::empty());
            assert(event_views(poll.events@) =~= Seq::empty());
            lemma_next_unread(history@.entries, 0);
            lemma_next_sendable(outbox(history@.entries), 0);
        }
        let action = poll.ask_next(history, 0);
        (poll, action)
    }
}

// ---------------------------------------------------------------------------
// What every poll keeps
// ---------------------------------------------------------------------------

/// No two entries share a message ID, but for entries that have none.
pub open spec fn ids_distinct(entries: Seq<EntryView>) -> bool {
    forall|i: int, j: int|
        0 <= i < j < entries.len() && (#[trigger] entries[i]).message_id == (
        #[trigger] entries[j]).message_id ==> entries[i].message_id.len() == 0
}

/// Whether a history goes on from another one: entries are only added, an entry
/// that is there keeps all but its status, and the cursor does not move back.
pub open spec fn continues(before: HistoryView, after: HistoryView) -> bool {
    &&& after.version == before.version
    &&& before.entries.len() <= after.entries.len()
    &&& forall|i: int|
        0 <= i < before.entries.len() ==> (EntryView {
            delivery_status: before.entries[i].delivery_status,
            ..#[trigger] after.entries[i]
        }) == before.entries[i]
    &&& before.transport_cursor <= after.transport_cursor
}

proof fn lemma_status_continues(h: HistoryView, index: int, status: Seq<char>)
    requires
        0 <= index < h.entries.len(),
    ensures
        continues(h, with_status(h, index, status)),
        ids_distinct(h.entries) ==> ids_distinct(with_status(h, index, status).entries),
{
    let after = with_status(h, index, status);
    assert forall|i: int| 0 <= i < h.entries.len() implies (EntryView {
        delivery_status: h.entries[i].delivery_status,
        ..#[trigger] after.entries[i]
    }) == h.entries[i] by {}
    assert forall|i: int, j: int|
        ids_distinct(h.entries) && 0 <= i < j < after.entries.len() && (
        #[trigger] after.entries[i]).message_id == (#[trigger] after.entries[j]).message_id implies
        after.entries[i].message_id.len() == 0 by {
        assert(h.entries[i].message_id == after.entries[i].message_id);
        assert(h.entries[j].message_id == after.entries[j].message_id);
    }
}

/// Every step of a poll goes on from the history before it: nothing is lost, no
/// ID changes, and the cursor does not move back.
pub proof fn law_poll_continues(p: PollView, h: HistoryView, reply: ReplyView, now: u64)
    requires
        poll_wf(p, h),
    ensures
        continues(h, poll_step(p, h, reply, now).1),
{
    if p.stage == PollStage::AskingStatus {
        lemma_status_continues(h, p.position, STATUS_READ@);
    }
    if p.stage == PollStage::Sending {
        let id = p.queued[p.position].message_id;
        lemma_find_id(h.entries, id, 0);
        let index = find_id(h.entries, id, 0);
        if index < h.entries.len() {
            lemma_status_continues(h, index, STATUS_SENT@);
        }
    }
}

/// A message that was delivered twice is entered once: a poll that meets a
/// history without double IDs leaves one without double IDs.
pub proof fn law_poll_suppresses_duplicates(
    p: PollView,
    h: HistoryView,
    reply: ReplyView,
    now: u64,
)
    requires
        poll_wf(p, h),
        ids_distinct(h.entries),
    ensures
        ids_distinct(poll_step(p, h, reply, now).1.entries),
{
    let after = poll_step(p, h, reply, now).1;
    if p.stage == PollStage::AskingStatus {
        lemma_status_continues(h, p.position, STATUS_READ@);
    } else if p.stage == PollStage::Sending {
        let id = p.queued[p.position].message_id;
        lemma_find_id(h.entries, id, 0);
        let index = find_id(h.entries, id, 0);
        if index < h.entries.len() {
            lemma_status_continues(h, index, STATUS_SENT@);
        }
    } else if after.entries.len() > h.entries.len() {
        let last = after.entries.len() - 1;
        assert forall|i: int, j: int|
            0 <= i < j < after.entries.len() && (#[trigger] after.entries[i]).message_id == (
            #[trigger] after.entries[j]).message_id implies after.entries[i].message_id.len()
            == 0 by {
            assert(after.entries[i] == h.entries[i]);
            if j < last {
                assert(after.entries[j] == h.entries[j]);
            } else {
                assert(has_id(h.entries, after.entries[last].message_id));
            }
        }
    }
}

// ---------------------------------------------------------------------------
// What a whole poll does
// ---------------------------------------------------------------------------

/// What a poll has come to after some replies, each with the time at which it came.
pub open spec fn poll_run(p: PollView, h: HistoryView, replies: Seq<(ReplyView, u64)>) -> (
    PollView,
    HistoryView,
    ActionView,
)
    decreases replies.len(),
{
    if replies.len() == 0 {
        let (next, action) = ask_next(p, h, 0);
        (next, h, action)
    } else {
        let before = poll_run(p, h, replies.drop_last());
        poll_step(before.0, before.1, replies.last().0, replies.last().1)
    }
}

/// The transport ID of the message that a reply acknowledges, if it does.
pub open spec fn acknowledged_by(p: PollView, reply: ReplyView) -> Option<Seq<char>> {
    if (p.stage == PollStage::Acknowledging || p.stage == PollStage::AcknowledgingStale) && reply
        == ReplyView::Acknowledged(true) {
        Some(p.messages[p.position].transport_id)
    } else {
        None
    }
}

/// The transport IDs of the messages that a poll has acknowledged, in their order.
pub open spec fn acknowledged_ids(
    p: PollView,
    h: HistoryView,
    replies: Seq<(ReplyView, u64)>,
) -> Seq<Seq<char>>
    decreases replies.len(),
{
    if replies.len() == 0 {
        Seq::empty()
    } else {
        let earlier = acknowledged_ids(p, h, replies.drop_last());
        match acknowledged_by(poll_run(p, h, replies.drop_last()).0, replies.last().0) {
            Some(id) => earlier.push(id),
            None => earlier,
        }
    }
}

/// The largest of a cursor and of the transport IDs that are numbers.
pub open spec fn largest_cursor(start: i64, ids: Seq<Seq<char>>) -> i64
    decreases ids.len(),
{
    if ids.len() == 0 {
        start
    } else {
        let before = largest_cursor(start, ids.drop_last());
        match text::parsed_i64(ids.last()) {
            Some(cursor) => if cursor > before {
                cursor
            } else {
                before
            },
            None => before,
        }
    }
}

/// The events that report a received message.
pub open spec fn received_events(events: Seq<EventView>) -> Seq<EventView>
    decreases events.len(),
{
    if events.len() == 0 {
        Seq::empty()
    } else if events.last() is Received {
        received_events(events.drop_last()).push(events.last())
    } else {
        received_events(events.drop_last())
    }
}

/// The event that reports a received entry.
pub open spec fn event_of(entry: EntryView) -> EventView {
    EventView::Received { timestamp: entry.timestamp, sender: entry.sender, text: entry.text }
}

/// The events that report the entries behind `from`.
pub open spec fn events_behind(h: HistoryView, from: int) -> Seq<EventView> {
    h.entries.skip(from).map_values(|entry: EntryView| event_of(entry))
}

proof fn lemma_received_push(events: Seq<EventView>, event: EventView)
    ensures
        received_events(events.push(event)) == if event is Received {
            received_events(events).push(event)
        } else {
            received_events(events)
        },
{
    assert(events.push(event).drop_last() =~= events);
}

/// One step of a poll adds an entry and reports it, or does neither.
proof fn lemma_step_reports(p: PollView, h: HistoryView, reply: ReplyView, now: u64)
    requires
        poll_wf(p, h),
    ensures
        ({
            let (next, after, action) = poll_step(p, h, reply, now);
            ||| after.entries.len() == h.entries.len() && received_events(next.events)
                == received_events(p.events)
            ||| after.entries.len() == h.entries.len() + 1 && received_events(next.events)
                == received_events(p.events).push(event_of(after.entries.last()))
        }),
{
    let (next, after, action) = poll_step(p, h, reply, now);
    match p.stage {
        PollStage::AskingStatus => {
            let entry = h.entries[p.position];
            lemma_received_push(
                p.events,
                EventView::Read { timestamp: entry.timestamp, text: entry.text },
            );
        },
        PollStage::Sending => {
            let id = p.queued[p.position].message_id;
            lemma_find_id(h.entries, id, 0);
        },
        PollStage::Decrypting => {
            if let ReplyView::Decrypted(decoded) = reply {
                lemma_received_push(
                    p.events,
                    EventView::Received {
                        timestamp: now,
                        sender: p.peer_name,
                        text: decode_utf8(decoded.plaintext),
                    },
                );
            }
        },
        PollStage::AcknowledgingStale => {
            lemma_received_push(
                p.events,
                EventView::Stale { transport_id: p.messages[p.position].transport_id },
            );
        },
        _ => {},
    }
}

proof fn lemma_continues(first: HistoryView, second: HistoryView, third: HistoryView)
    requires
        continues(first, second),
        continues(second, third),
    ensures
        continues(first, third),
{
    assert forall|i: int| 0 <= i < first.entries.len() implies (EntryView {
        delivery_status: first.entries[i].delivery_status,
        ..#[trigger] third.entries[i]
    }) == first.entries[i] by {
        let middle = second.entries[i];
        assert((EntryView { delivery_status: middle.delivery_status, ..third.entries[i] })
            == middle);
        assert((EntryView { delivery_status: first.entries[i].delivery_status, ..middle })
            == first.entries[i]);
    }
}

/// A whole poll, however far it has come, only adds entries to the history, reports
/// each of them once and in their order and nothing else as received, enters no message
/// twice, and moves the cursor to the largest of the messages that it acknowledged.
pub proof fn law_whole_poll(
    peer: BundleView,
    relay_sender_id: Option<Seq<char>>,
    h: HistoryView,
    replies: Seq<(ReplyView, u64)>,
)
    ensures
        ({
            let start = new_poll(peer, relay_sender_id);
            let (p, after, action) = poll_run(start, h, replies);
            &&& poll_wf(p, after)
            &&& continues(h, after)
            &&& received_events(p.events) == events_behind(after, h.entries.len() as int)
            &&& ids_distinct(h.entries) ==> ids_distinct(after.entries)
            &&& after.transport_cursor == largest_cursor(
                h.transport_cursor,
                acknowledged_ids(start, h, replies),
            )
        }),
    decreases replies.len(),
{
    let start = new_poll(peer, relay_sender_id);
    let from = h.entries.len() as int;
    let (p, after, action) = poll_run(start, h, replies);
    if replies.len() == 0 {
        lemma_next_unread(h.entries, 0);
        lemma_next_sendable(outbox(h.entries), 0);
        assert(events_behind(h, from) =~= Seq::empty());
        assert(p.events =~= Seq::empty());
    } else {
        let (last, reply) = (poll_run(start, h, replies.drop_last()), replies.last());
        law_whole_poll(peer, relay_sender_id, h, replies.drop_last());
        lemma_poll_step_wf(last.0, last.1, reply.0, reply.1);
        law_poll_continues(last.0, last.1, reply.0, reply.1);
        lemma_continues(h, last.1, after);
        if ids_distinct(h.entries) {
            law_poll_suppresses_duplicates(last.0, last.1, reply.0, reply.1);
        }
        lemma_step_reports(last.0, last.1, reply.0, reply.1);
        let earlier = events_behind(last.1, from);
        let now = events_behind(after, from);
        assert forall|i: int| 0 <= i < earlier.len() implies #[trigger] now[i] == earlier[i] by {
            let k = from + i;
            assert((EntryView {
                delivery_status: last.1.entries[k].delivery_status,
                ..after.entries[k]
            }) == last.1.entries[k]);
        }
        if after.entries.len() == last.1.entries.len() {
            assert(now =~= earlier);
        } else {
            assert(now =~= earlier.push(event_of(after.entries.last())));
        }
        let ids = acknowledged_ids(start, h, replies.drop_last());
        if let Some(id) = acknowledged_by(last.0, reply.0) {
            assert(ids.push(id).drop_last() =~= ids);
        }
    }
}

/// A message is acknowledged only when the history holds it: a poll asks for the
/// acknowledgement of a decrypted message after its ID was found in the history,
/// or after the history with its new entry was saved.
pub proof fn law_poll_acknowledges_kept_messages(
    p: PollView,
    h: HistoryView,
    reply: ReplyView,
    now: u64,
)
    requires
        poll_wf(p, h),
        poll_step(p, h, reply, now).2 is Acknowledge,
    ensures
        match reply {
            ReplyView::Decrypted(decoded) => has_id(h.entries, text::hex(decoded.id)),
            ReplyView::Saved(saved) => saved && p.stage == PollStage::SavingMessage,
            ReplyView::Undecryptable(error) => text::occurs_in(error, OLD_COUNTER@),
            _ => false,
        },
        poll_step(p, h, reply, now).2->message == p.messages[p.position],
{
}

/// A decrypted message that the history does not hold is entered with its text,
/// reported once, and saved before anything else happens.
pub proof fn law_poll_keeps_new_messages(
    p: PollView,
    h: HistoryView,
    decoded: SafeChatMessageView,
    now: u64,
)
    requires
        p.stage == PollStage::Decrypting,
        poll_wf(p, h),
        !has_id(h.entries, text::hex(decoded.id)),
        valid_utf8(decoded.plaintext),
    ensures
        ({
            let (next, after, action) = poll_step(p, h, ReplyView::Decrypted(decoded), now);
            &&& action == ActionView::Save
            &&& has_id(after.entries, text::hex(decoded.id))
            &&& after.entries.last().text == decode_utf8(decoded.plaintext)
            &&& next.events == p.events.push(
                EventView::Received {
                    timestamp: now,
                    sender: p.peer_name,
                    text: decode_utf8(decoded.plaintext),
                },
            )
        }),
{
    let after = poll_step(p, h, ReplyView::Decrypted(decoded), now).1;
    assert(after.entries[h.entries.len() as int].message_id == text::hex(decoded.id));
}

proof fn lemma_outbox_member(entries: Seq<EntryView>, index: int)
    requires
        0 <= index < outbox(entries).len(),
    ensures
        exists|i: int|
            0 <= i < entries.len() && is_queued(#[trigger] entries[i]) && outbox(entries)[index]
                == queued_of(entries[i]),
    decreases entries.len(),
{
    let before = entries.drop_last();
    if is_queued(entries.last()) && index == outbox(before).len() {
        assert(entries[entries.len() - 1] == entries.last());
    } else {
        lemma_outbox_member(before, index);
        let i = choose|i: int|
            0 <= i < before.len() && is_queued(#[trigger] before[i]) && outbox(before)[index]
                == queued_of(before[i]);
        assert(entries[i] == before[i]);
    }
}

/// A retry hands over the very envelope that was queued, to the same recipient
/// and under the same message ID.
pub proof fn law_retry_keeps_message(
    timestamp: u64,
    body: Seq<char>,
    message_id: Seq<char>,
    peer: Seq<char>,
    envelope: Seq<u8>,
    recipient: Seq<char>,
)
    ensures
        ({
            let entry = queued_entry(timestamp, body, message_id, peer, envelope, recipient);
            let retry = queued_of(entry);
            &&& is_queued(entry)
            &&& retry.message_id == message_id
            &&& retry.recipient == recipient
            &&& transport::line_bytes(retry.ciphertext) == Some(envelope)
        }),
{
    let encoded = primitives::base64_url(envelope);
    transport::lemma_encoding_trimmed(envelope, Seq::empty());
    assert(encoded + Seq::<char>::empty() =~= encoded);
    primitives::law_base64_round_trip(envelope);
}

/// Everything that a poll sends comes from the outbox of the history.
pub proof fn law_poll_sends_outbox(p: PollView, h: HistoryView)
    requires
        start_outbox(p, h).1 is Send,
    ensures
        exists|i: int|
            0 <= i < h.entries.len() && is_queued(#[trigger] h.entries[i]) && start_outbox(
                p,
                h,
            ).1->Send_message_id == h.entries[i].message_id && start_outbox(p, h).1->recipient
                == h.entries[i].transport_recipient,
{
    let queued = outbox(h.entries);
    lemma_next_sendable(queued, 0);
    lemma_outbox_member(h.entries, next_sendable(queued, 0));
}

// ---------------------------------------------------------------------------
// What sending and polling do to the entries
// ---------------------------------------------------------------------------

/// Whether an entry is another with a different delivery status, or the same.
pub open spec fn same_but_status(left: EntryView, right: EntryView) -> bool {
    &&& left.timestamp == right.timestamp
    &&& left.sender == right.sender
    &&& left.text == right.text
    &&& left.message_id == right.message_id
    &&& left.peer == right.peer
    &&& left.ciphertext == right.ciphertext
    &&& left.transport_recipient == right.transport_recipient
}

/// Whether a history is another with one entry given a status, and nothing else
/// changed.
pub open spec fn given_status(
    before: HistoryView,
    after: HistoryView,
    index: int,
    status: Seq<char>,
) -> bool {
    &&& after.version == before.version
    &&& after.transport_cursor == before.transport_cursor
    &&& after.entries.len() == before.entries.len()
    &&& same_but_status(after.entries[index], before.entries[index])
    &&& after.entries[index].delivery_status == status
    &&& forall|i: int|
        0 <= i < before.entries.len() && i != index ==> #[trigger] after.entries[i]
            == before.entries[i]
}

/// Whether an entry is the first with an ID.
pub open spec fn first_with_id(entries: Seq<EntryView>, id: Seq<char>, index: int) -> bool {
    &&& 0 <= index < entries.len()
    &&& entries[index].message_id == id
    &&& forall|i: int| 0 <= i < index ==> (#[trigger] entries[i]).message_id != id
}

/// The first entry with the ID of a message that was taken is "sent" from then on, and
/// is no longer queued. Every other entry stays as it is, and where no entry has the ID
/// nothing changes.
pub proof fn law_taken_message_is_marked_sent(h: HistoryView, id: Seq<char>, index: int)
    ensures
        first_with_id(h.entries, id, index) ==> given_status(
            h,
            marked_sent(h, id),
            index,
            "sent"@,
        ) && marked_sent(h, id).entries[index].delivery_status != "queued"@,
        (forall|i: int| 0 <= i < h.entries.len() ==> (#[trigger] h.entries[i]).message_id != id)
            ==> marked_sent(h, id) == h,
{
    lemma_first_found(h.entries, id);
    reveal_strlit("sent");
    reveal_strlit("queued");
    assert("sent"@.len() != "queued"@.len());
    let found = find_id(h.entries, id, 0);
    if first_with_id(h.entries, id, index) {
        if found < index {
            assert(h.entries[found].message_id != id);
        }
        if index < found {
            assert(h.entries[index].message_id == id);
        }
        assert(found == index);
    }
}

proof fn lemma_first_found(entries: Seq<EntryView>, id: Seq<char>)
    ensures
        0 <= find_id(entries, id, 0) <= entries.len(),
        find_id(entries, id, 0) < entries.len() ==> first_with_id(
            entries,
            id,
            find_id(entries, id, 0),
        ),
        find_id(entries, id, 0) == entries.len() ==> forall|i: int|
            0 <= i < entries.len() ==> (#[trigger] entries[i]).message_id != id,
{
    lemma_first_found_from(entries, id, 0);
}

proof fn lemma_first_found_from(entries: Seq<EntryView>, id: Seq<char>, from: int)
    requires
        0 <= from <= entries.len(),
        forall|i: int| 0 <= i < from ==> (#[trigger] entries[i]).message_id != id,
    ensures
        0 <= find_id(entries, id, from) <= entries.len(),
        find_id(entries, id, from) < entries.len() ==> first_with_id(
            entries,
            id,
            find_id(entries, id, from),
        ),
        find_id(entries, id, from) == entries.len() ==> forall|i: int|
            0 <= i < entries.len() ==> (#[trigger] entries[i]).message_id != id,
    decreases entries.len() - from,
{
    if from < entries.len() && entries[from].message_id != id {
        lemma_first_found_from(entries, id, from + 1);
    }
}

/// When the transport takes a message, the entry with its ID becomes "sent", whether
/// the message was just written or waited in the outbox, and the history is to be
/// saved. When it does not, the history stays.
pub proof fn law_transport_answer_is_written_down(
    s: SendView,
    p: PollView,
    h: HistoryView,
    index: int,
    now: u64,
)
    ensures
        s.stage == SendStage::Sending && first_with_id(h.entries, s.message_id, index) ==> {
            let taken = send_step(s, h, ReplyView::Sent(true));
            &&& given_status(h, taken.1, index, "sent"@)
            &&& taken.2 == ActionView::Save
        },
        s.stage == SendStage::Sending ==> {
            let refused = send_step(s, h, ReplyView::Sent(false));
            &&& refused.1 == h
            &&& refused.2 == ActionView::Fail(ChatError::OutsideFailed)
        },
        p.stage == PollStage::Sending && first_with_id(
            h.entries,
            p.queued[p.position].message_id,
            index,
        ) ==> {
            let taken = poll_step(p, h, ReplyView::Sent(true), now);
            &&& given_status(h, taken.1, index, "sent"@)
            &&& taken.2 == ActionView::Save
        },
        p.stage == PollStage::Sending ==> poll_step(p, h, ReplyView::Sent(false), now).1 == h,
{
    law_taken_message_is_marked_sent(h, s.message_id, index);
    law_taken_message_is_marked_sent(h, p.queued[p.position].message_id, index);
}

/// A message that is sent under a new ID is first kept as queued, then handed to the
/// transport with its own recipient, ID and envelope, and then kept as sent. All the
/// while every earlier entry stays as it is. What is kept can be sent again: its
/// ciphertext reads back as the envelope.
pub proof fn law_whole_send(
    h: HistoryView,
    now: u64,
    body: Seq<char>,
    id: Seq<char>,
    peer: Seq<char>,
    envelope: Seq<u8>,
    recipient: Seq<char>,
)
    requires
        forall|i: int| 0 <= i < h.entries.len() ==> (#[trigger] h.entries[i]).message_id != id,
    ensures
        ({
            let queued = with_entry(
                h,
                queued_entry(now, body, id, peer, envelope, recipient),
            );
            let start = SendView {
                stage: SendStage::SavingQueued,
                timestamp: now,
                text: body,
                message_id: id,
                recipient,
                envelope,
            };
            let saved = send_step(start, queued, ReplyView::Saved(true));
            let taken = send_step(saved.0, saved.1, ReplyView::Sent(true));
            let refused = send_step(saved.0, saved.1, ReplyView::Sent(false));
            let done = send_step(taken.0, taken.1, ReplyView::Saved(true));
            let last = h.entries.len() as int;
            &&& saved.2 == (ActionView::Send { recipient, message_id: id, envelope })
            &&& taken.2 == ActionView::Save
            &&& done.2 == ActionView::Done
            &&& forall|after: HistoryView|
                after == queued || after == refused.1 || after == done.1 ==> {
                    &&& after.entries.len() == last + 1
                    &&& after.transport_cursor == h.transport_cursor
                    &&& after.version == h.version
                    &&& forall|i: int|
                        0 <= i < last ==> #[trigger] after.entries[i] == h.entries[i]
                    &&& (#[trigger] after.entries[last]).timestamp == now
                    &&& after.entries[last].sender == "you"@
                    &&& after.entries[last].text == body
                    &&& after.entries[last].message_id == id
                    &&& after.entries[last].peer == peer
                    &&& after.entries[last].transport_recipient == recipient
                    &&& transport::line_bytes(after.entries[last].ciphertext) == Some(envelope)
                }
            &&& queued.entries[last].delivery_status == "queued"@
            &&& refused.1.entries[last].delivery_status == "queued"@
            &&& done.1.entries[last].delivery_status == "sent"@
        }),
{
    let queued = with_entry(h, queued_entry(now, body, id, peer, envelope, recipient));
    let last = h.entries.len() as int;
    law_retry_keeps_message(now, body, id, peer, envelope, recipient);
    assert forall|i: int| 0 <= i < last implies (#[trigger] queued.entries[i]).message_id != id by {
        assert(queued.entries[i] == h.entries[i]);
    }
    law_taken_message_is_marked_sent(queued, id, last);
    let done = marked_sent(queued, id);
    assert forall|i: int| 0 <= i < last implies #[trigger] done.entries[i] == h.entries[i] by {
        assert(queued.entries[i] == h.entries[i]);
    }
}

/// A poll asks the transport about the first entry, from where it stands, that this
/// side has sent under an ID and of which no reading is known. It skips no such entry
/// and asks about no other.
pub proof fn law_poll_asks_about_sent_messages(p: PollView, h: HistoryView, from: int, index: int)
    requires
        0 <= from <= index < h.entries.len(),
        h.entries[index].sender == "you"@,
        h.entries[index].delivery_status == "sent"@,
        h.entries[index].message_id.len() > 0,
        forall|i: int|
            from <= i < index ==> !((#[trigger] h.entries[i]).sender == "you"@
                && h.entries[i].delivery_status == "sent"@ && h.entries[i].message_id.len() > 0),
    ensures
        ask_next(p, h, from).1 == (ActionView::AskStatus {
            message_id: h.entries[index].message_id,
        }),
        ask_next(p, h, from).0.stage == PollStage::AskingStatus,
        ask_next(p, h, from).0.position == index,
    decreases index - from,
{
    if from < index {
        assert(!awaits_read(h.entries[from]));
        law_poll_asks_about_sent_messages(p, h, from + 1, index);
    }
}

/// An entry of which the transport says that it was read becomes "read", and is
/// reported with its own time and text. Every other entry stays. Any other answer
/// changes nothing.
pub proof fn law_reading_is_written_down(
    p: PollView,
    h: HistoryView,
    status: Option<DeliveryStatus>,
    now: u64,
)
    requires
        p.stage == PollStage::AskingStatus,
        0 <= p.position < h.entries.len(),
    ensures
        ({
            let (next, after, action) = poll_step(p, h, ReplyView::Status(status), now);
            &&& status == Some(DeliveryStatus::Read) ==> {
                &&& given_status(h, after, p.position, "read"@)
                &&& next.events == p.events.push(
                    EventView::Read {
                        timestamp: h.entries[p.position].timestamp,
                        text: h.entries[p.position].text,
                    },
                )
            }
            &&& status != Some(DeliveryStatus::Read) ==> after == h && next.events == p.events
        }),
{
}

/// The outbox of an empty history is empty. An entry that this side wrote and that is
/// queued is the last in the outbox of a history that ends in it, and no other entry
/// is in one.
pub proof fn law_outbox_holds_what_is_queued(entries: Seq<EntryView>, entry: EntryView)
    ensures
        outbox(Seq::empty()).len() == 0,
        entry.sender == "you"@ && entry.delivery_status == "queued"@ ==> {
            let all = outbox(entries.push(entry));
            &&& all.len() == outbox(entries).len() + 1
            &&& all.drop_last() == outbox(entries)
            &&& all.last().message_id == entry.message_id
            &&& all.last().recipient == entry.transport_recipient
            &&& all.last().ciphertext == entry.ciphertext
        },
        !(entry.sender == "you"@ && entry.delivery_status == "queued"@) ==> outbox(
            entries.push(entry),
        ) == outbox(entries),
{
    assert(entries.push(entry).drop_last() =~= entries);
    assert(outbox(entries.push(entry)).drop_last() =~= outbox(entries)
        || outbox(entries.push(entry)) == outbox(entries));
}

/// A poll sends the first message of the outbox, from where it stands, whose ciphertext
/// can be read, with its own recipient and ID. When there is none left it asks for
/// messages behind the cursor.
pub proof fn law_poll_sends_in_order(p: PollView, h: HistoryView, from: int, index: int)
    requires
        0 <= from <= index <= p.queued.len(),
        forall|i: int|
            from <= i < index ==> transport::line_bytes((#[trigger] p.queued[i]).ciphertext)
                is None,
        index < p.queued.len() ==> transport::line_bytes(p.queued[index].ciphertext) is Some,
    ensures
        index < p.queued.len() ==> {
            &&& send_next(p, h, from).1 == (ActionView::Send {
                recipient: p.queued[index].recipient,
                message_id: p.queued[index].message_id,
                envelope: transport::line_bytes(p.queued[index].ciphertext)->0,
            })
            &&& send_next(p, h, from).0.position == index
            &&& send_next(p, h, from).0.stage == PollStage::Sending
        },
        index == p.queued.len() ==> send_next(p, h, from).1 == (ActionView::Receive {
            cursor: h.transport_cursor,
        }) && send_next(p, h, from).0.stage == PollStage::Receiving,
    decreases index - from,
{
    if from < index {
        assert(transport::line_bytes(p.queued[from].ciphertext) is None);
        law_poll_sends_in_order(p, h, from + 1, index);
    }
}

/// A poll decrypts the first message, from where it stands, that comes from the peer,
/// by its address or by its relay ID. It skips none of them and decrypts no other.
pub proof fn law_poll_decrypts_messages_of_the_peer(p: PollView, from: int, index: int)
    requires
        0 <= from <= index <= p.messages.len(),
        forall|i: int|
            from <= i < index ==> (#[trigger] p.messages[i]).sender_address != Some(p.peer_address)
                && p.relay_sender_id != Some(p.messages[i].sender),
        index < p.messages.len() ==> p.messages[index].sender_address == Some(p.peer_address)
            || p.relay_sender_id == Some(p.messages[index].sender),
    ensures
        index < p.messages.len() ==> {
            &&& decrypt_next(p, from).1 == (ActionView::Decrypt {
                ciphertext: p.messages[index].ciphertext,
            })
            &&& decrypt_next(p, from).0.position == index
            &&& decrypt_next(p, from).0.stage == PollStage::Decrypting
        },
        index == p.messages.len() ==> decrypt_next(p, from).1 == if p.history_changed {
            ActionView::Save
        } else {
            ActionView::Done
        },
    decreases index - from,
{
    if from < index {
        assert(!is_from(p.messages[from], p.peer_address, p.relay_sender_id));
        law_poll_decrypts_messages_of_the_peer(p, from + 1, index);
    }
}

/// A message that was decrypted and is not known is kept behind all others, as received
/// from the peer at this time, with its own ID, text and ciphertext. No other entry
/// changes. One that is known, and one that is no text, changes nothing.
pub proof fn law_received_message_is_kept_as_it_came(
    p: PollView,
    h: HistoryView,
    decoded: SafeChatMessageView,
    now: u64,
)
    requires
        p.stage == PollStage::Decrypting,
        poll_wf(p, h),
    ensures
        ({
            let known = exists|i: int|
                0 <= i < h.entries.len() && (#[trigger] h.entries[i]).message_id == text::hex(
                    decoded.id,
                );
            let (next, after, action) = poll_step(p, h, ReplyView::Decrypted(decoded), now);
            &&& known || !valid_utf8(decoded.plaintext) ==> after == h && next.events == p.events
            &&& !known && !valid_utf8(decoded.plaintext) ==> action == ActionView::Fail(
                ChatError::NotUtf8,
            )
            &&& known ==> action == (ActionView::Acknowledge { message: p.messages[p.position] })
            &&& !known && valid_utf8(decoded.plaintext) ==> {
                let last = h.entries.len() as int;
                &&& after.entries.len() == last + 1
                &&& forall|i: int| 0 <= i < last ==> #[trigger] after.entries[i] == h.entries[i]
                &&& after.transport_cursor == h.transport_cursor
                &&& after.entries[last].timestamp == now
                &&& after.entries[last].sender == p.peer_name
                &&& after.entries[last].text == decode_utf8(decoded.plaintext)
                &&& after.entries[last].message_id == text::hex(decoded.id)
                &&& after.entries[last].peer == p.peer_address
                &&& after.entries[last].delivery_status == "received"@
                &&& after.entries[last].transport_recipient.len() == 0
                &&& transport::line_bytes(after.entries[last].ciphertext) == Some(
                    p.messages[p.position].ciphertext,
                )
            }
        }),
{
    let envelope = p.messages[p.position].ciphertext;
    let encoded = primitives::base64_url(envelope);
    transport::lemma_encoding_trimmed(envelope, Seq::empty());
    assert(encoded + Seq::<char>::empty() =~= encoded);
    primitives::law_base64_round_trip(envelope);
}

/// An acknowledged message moves the cursor to its number, where that is a number above
/// the cursor, and changes no entry. A stale one is reported under its own ID, and then
/// the next message of the peer is looked for behind it.
pub proof fn law_acknowledged_message_moves_the_cursor(p: PollView, h: HistoryView, now: u64)
    requires
        p.stage == PollStage::Acknowledging || p.stage == PollStage::AcknowledgingStale,
        poll_wf(p, h),
    ensures
        ({
            let id = p.messages[p.position].transport_id;
            let (next, after, action) = poll_step(p, h, ReplyView::Acknowledged(true), now);
            &&& after.entries == h.entries
            &&& after.version == h.version
            &&& after.transport_cursor >= h.transport_cursor
            &&& text::parsed_i64(id) is None ==> after.transport_cursor == h.transport_cursor
            &&& text::parsed_i64(id) matches Some(cursor) ==> after.transport_cursor >= cursor && (
            after.transport_cursor == cursor || after.transport_cursor == h.transport_cursor)
            &&& p.stage == PollStage::Acknowledging ==> next.events == p.events
            &&& p.stage == PollStage::AcknowledgingStale ==> next.events == p.events.push(
                EventView::Stale { transport_id: id },
            )
            &&& after.transport_cursor != h.transport_cursor ==> next.history_changed
            &&& p.history_changed ==> next.history_changed
            &&& next.stage == PollStage::Decrypting ==> p.position < next.position
                < p.messages.len()
            &&& next.messages == p.messages
        }),
{
    let moved = advanced(h, p.messages[p.position].transport_id);
    let stale = p.stage == PollStage::AcknowledgingStale;
    let after = PollView {
        history_changed: p.history_changed || moved.transport_cursor != h.transport_cursor,
        events: if stale {
            p.events.push(EventView::Stale { transport_id: p.messages[p.position].transport_id })
        } else {
            p.events
        },
        ..p
    };
    lemma_next_from_peer(p.messages, p.peer_address, p.relay_sender_id, p.position + 1);
    assert(poll_step(p, h, ReplyView::Acknowledged(true), now).0 == decrypt_next(
        after,
        p.position + 1,
    ).0);
}

/// A poll starts with nothing found and the peer's own name and address.
pub proof fn law_poll_starts_for_the_peer(peer: BundleView, relay_sender_id: Option<Seq<char>>)
    ensures
        new_poll(peer, relay_sender_id).peer_name == peer.name,
        new_poll(peer, relay_sender_id).peer_address == signal::address_text(
            peer.name,
            peer.device_id,
        ),
        new_poll(peer, relay_sender_id).relay_sender_id == relay_sender_id,
        new_poll(peer, relay_sender_id).events.len() == 0,
        !new_poll(peer, relay_sender_id).history_changed,
{
}

/// What failed outside ends a poll with an error and changes no entry: a message that
/// was not saved is not acknowledged, and one that was not acknowledged does not move
/// the cursor.
pub proof fn law_poll_stops_at_failures(p: PollView, h: HistoryView, now: u64)
    ensures
        p.stage == PollStage::SavingReads || p.stage == PollStage::SavingSent || p.stage
            == PollStage::SavingMessage || p.stage == PollStage::SavingCursor ==> {
            let (next, after, action) = poll_step(p, h, ReplyView::Saved(false), now);
            &&& action == ActionView::Fail(ChatError::OutsideFailed)
            &&& after == h
            &&& next.stage == PollStage::Ended
        },
        p.stage == PollStage::Acknowledging || p.stage == PollStage::AcknowledgingStale ==> {
            let (next, after, action) = poll_step(p, h, ReplyView::Acknowledged(false), now);
            &&& action == ActionView::Fail(ChatError::OutsideFailed)
            &&& after == h
        },
        p.stage == PollStage::Receiving ==> {
            let (next, after, action) = poll_step(p, h, ReplyView::Received(None), now);
            &&& action == ActionView::Fail(ChatError::OutsideFailed)
            &&& after == h
        },
        p.stage == PollStage::SavingMessage ==> {
            let (next, after, action) = poll_step(p, h, ReplyView::Saved(true), now);
            &&& action == (ActionView::Acknowledge { message: p.messages[p.position] })
            &&& after == h
        },
{
}

} // verus!
