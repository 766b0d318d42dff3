//! The desktop client's worker: what a command asks for, and what comes of it.
//!
//! Databases, the Signal session, history files and relays are worked outside.
//! [`handle_command`] says what is to be done for a command, and
//! [`finish_command`] makes an event of what came of it.
use vstd::prelude::*;
use vstd::utf8::*;

use crate::bundle::{BundleView, SignalPreKeyBundle};
use crate::chat;
use crate::chat::ChatEvent;
use crate::history;
use crate::history::{EntryView, HistoryEntry, HistoryFile, HistoryView};
use crate::primitives;
use crate::signal;
use crate::signal::{MessageId, SafeChatMessage, SafeChatMessageView};
use crate::text;
use crate::text::{same_text, trim, utf8_string};
use crate::timestamps;
use crate::timestamps::format_timestamp;
use crate::transport;
use crate::transport::{envelope_text, TextError, TextTransport};
use crate::ui_state;
use crate::ui_state::{
    render_history_page, Command, ConversationMessage, Event, EventView, HistoryPage, MessageView,
    Operation, TransportKind, UiState, UiView, HISTORY_PAGE_SIZE,
};

verus! {

// ---------------------------------------------------------------------------
// Commands
// ---------------------------------------------------------------------------

/// The profile that is unlocked.
#[derive(Clone, Debug, PartialEq, Eq)]
pub struct ProfileSession {
    pub profile: String,
    pub password: String,
}

/// The contents of a [`ProfileSession`].
#[verifier::ext_equal]
pub struct SessionView {
    pub profile: Seq<char>,
    pub password: Seq<char>,
}

impl View for ProfileSession {
    type V = SessionView;

    open spec fn view(&self) -> SessionView {
        SessionView { profile: self.profile@, password: self.password@ }
    }
}

/// The contents of a session that there may be.
pub open spec fn session_view(session: Option<ProfileSession>) -> Option<SessionView> {
    match session {
        Some(value) => Some(value@),
        None => None,
    }
}

/// What is known of a profile once it is unlocked.
#[derive(Clone, Debug, PartialEq, Eq)]
pub struct ProfileReadyData {
    pub profile: String,
    pub fingerprint: String,
    pub bundle: String,
    pub contact: Option<(String, String)>,
}

/// What is to be done for a command.
#[derive(Clone, Debug, PartialEq, Eq)]
pub enum Work {
    /// Unlock a profile, or create it.
    Initialize { profile: String, password: String, confirmation: String },
    /// Compare a fingerprint and keep the contact.
    VerifyContact { profile: String, password: String, bundle: String, fingerprint: String },
    /// Load a page of a history.
    LoadPage { session: ProfileSession, peer: String, before: Option<usize>, page_size: usize },
    /// Encrypt a text, to be copied.
    PasteSend { session: ProfileSession, peer: String, text: String },
    /// Decrypt a text that was pasted.
    PasteReceive { session: ProfileSession, peer: String, ciphertext: String },
    /// Send a text through the relay, if there is one, and fetch what it holds.
    ChatAction { session: ProfileSession, peer: String, text: Option<String> },
}

/// The contents of a [`Work`].
pub enum WorkView {
    Initialize { profile: Seq<char>, password: Seq<char>, confirmation: Seq<char> },
    VerifyContact {
        profile: Seq<char>,
        password: Seq<char>,
        bundle: Seq<char>,
        fingerprint: Seq<char>,
    },
    LoadPage {
        session: SessionView,
        peer: Seq<char>,
        before: Option<usize>,
        page_size: usize,
    },
    PasteSend { session: SessionView, peer: Seq<char>, text: Seq<char> },
    PasteReceive { session: SessionView, peer: Seq<char>, ciphertext: Seq<char> },
    ChatAction { session: SessionView, peer: Seq<char>, text: Option<Seq<char>> },
}

impl View for Work {
    type V = WorkView;

    open spec fn view(&self) -> WorkView {
        match *self {
            Work::Initialize { profile, password, confirmation } => WorkView::Initialize {
                profile: profile@,
                password: password@,
                confirmation: confirmation@,
            },
            Work::VerifyContact { profile, password, bundle, fingerprint } =>
            WorkView::VerifyContact {
                profile: profile@,
                password: password@,
                bundle: bundle@,
                fingerprint: fingerprint@,
            },
            Work::LoadPage { session, peer, before, page_size } => WorkView::LoadPage {
                session: session@,
                peer: peer@,
                before,
                page_size,
            },
            Work::PasteSend { session, peer, text } => WorkView::PasteSend {
                session: session@,
                peer: peer@,
                text: text@,
            },
            Work::PasteReceive { session, peer, ciphertext } => WorkView::PasteReceive {
                session: session@,
                peer: peer@,
                ciphertext: ciphertext@,
            },
            Work::ChatAction { session, peer, text } => WorkView::ChatAction {
                session: session@,
                peer: peer@,
                text: match text {
                    Some(value) => Some(value@),
                    None => None,
                },
            },
        }
    }
}

/// Why a command failed.
#[derive(Clone, Debug, PartialEq, Eq)]
pub struct ServiceError {
    pub operation: Operation,
    pub source: String,
}

impl ServiceError {
    pub fn new(operation: Operation, source: String) -> (error: ServiceError)
        ensures
            error.operation == operation,
            error.source@ == source@,
    {
        ServiceError { operation, source }
    }
}

/// What is to be done for a command in a session. Everything but unlocking a
/// profile and verifying a contact needs one.
pub open spec fn work_for(session: Option<SessionView>, command: Command) -> Option<WorkView> {
    match command {
        Command::Initialize { profile, password, confirmation } => Some(
            WorkView::Initialize {
                profile: profile@,
                password: password@,
                confirmation: confirmation@,
            },
        ),
        Command::VerifyContact { profile, password, bundle, fingerprint } => Some(
            WorkView::VerifyContact {
                profile: profile@,
                password: password@,
                bundle: bundle@,
                fingerprint: fingerprint@,
            },
        ),
        _ => match session {
            Some(active) => Some(session_work(active, command)),
            None => None,
        },
    }
}

/// What is to be done for a command that needs a session.
pub open spec fn session_work(session: SessionView, command: Command) -> WorkView {
    match command {
        Command::LoadHistory { peer } => WorkView::LoadPage {
            session,
            peer: peer@,
            before: None,
            page_size: HISTORY_PAGE_SIZE,
        },
        Command::LoadOlderHistory { peer, before } => WorkView::LoadPage {
            session,
            peer: peer@,
            before: Some(before),
            page_size: HISTORY_PAGE_SIZE,
        },
        Command::Send { peer, transport, text } => if transport == TransportKind::CopyPaste {
            WorkView::PasteSend { session, peer: peer@, text: text@ }
        } else {
            WorkView::ChatAction { session, peer: peer@, text: Some(text@) }
        },
        Command::ReceivePasted { peer, ciphertext } => WorkView::PasteReceive {
            session,
            peer: peer@,
            ciphertext: ciphertext@,
        },
        Command::Poll { peer } => WorkView::ChatAction { session, peer: peer@, text: None },
        _ => arbitrary(),
    }
}

fn require_session(session: &Option<ProfileSession>, operation: Operation) -> (result: Result<
    ProfileSession,
    ServiceError,
>)
    ensures
        match *session {
            Some(active) => result matches Ok(value) && value@ == active@,
            None => result matches Err(error) && error.operation == operation && error.source@
                == "profile is not unlocked"@,
        },
{
    match session {
        Some(active) => Ok(
            ProfileSession { profile: active.profile.clone(), password: active.password.clone() },
        ),
        None => Err(ServiceError::new(operation, "profile is not unlocked".to_owned())),
    }
}

/// Says what is to be done for a command.
pub fn handle_command(session: &Option<ProfileSession>, command: &Command) -> (result: Result<
    Work,
    ServiceError,
>)
    ensures
        match work_for(session_view(*session), *command) {
            Some(work) => result matches Ok(value) && value@ == work,
            None => result matches Err(error) && error.operation == ui_state::command_operation(
                *command,
            ) && error.source@ == "profile is not unlocked"@,
        },
{
    let operation = command.operation();
    match command {
        Command::Initialize { profile, password, confirmation } => Ok(
            Work::Initialize {
                profile: profile.clone(),
                password: password.clone(),
                confirmation: confirmation.clone(),
            },
        ),
        Command::VerifyContact { profile, password, bundle, fingerprint } => Ok(
            Work::VerifyContact {
                profile: profile.clone(),
                password: password.clone(),
                bundle: bundle.clone(),
                fingerprint: fingerprint.clone(),
            },
        ),
        Command::LoadHistory { peer } => Ok(
            Work::LoadPage {
                session: require_session(session, operation)?,
                peer: peer.clone(),
                before: None,
                page_size: HISTORY_PAGE_SIZE,
            },
        ),
        Command::LoadOlderHistory { peer, before } => Ok(
            Work::LoadPage {
                session: require_session(session, operation)?,
                peer: peer.clone(),
                before: Some(*before),
                page_size: HISTORY_PAGE_SIZE,
            },
        ),
        Command::Send { peer, transport, text } => {
            let active = require_session(session, operation)?;
            if *transport == TransportKind::CopyPaste {
                Ok(Work::PasteSend { session: active, peer: peer.clone(), text: text.clone() })
            } else {
                Ok(
                    Work::ChatAction {
                        session: active,
                        peer: peer.clone(),
                        text: Some(text.clone()),
                    },
                )
            }
        },
        Command::ReceivePasted { peer, ciphertext } => Ok(
            Work::PasteReceive {
                session: require_session(session, operation)?,
                peer: peer.clone(),
                ciphertext: ciphertext.clone(),
            },
        ),
        Command::Poll { peer } => Ok(
            Work::ChatAction {
                session: require_session(session, operation)?,
                peer: peer.clone(),
                text: None,
            },
        ),
    }
}

/// Without an unlocked profile no history is read and no message is sent or
/// received.
pub proof fn law_locked_profile_does_nothing(command: Command)
    requires
        !(command is Initialize),
        !(command is VerifyContact),
    ensures
        work_for(None, command) is None,
{
}

/// What came of the work for a command.
#[derive(Debug)]
pub enum Finished {
    /// A profile is unlocked.
    Ready(ProfileReadyData),
    /// A contact is verified.
    Verified { name: String, status: String },
    /// A page of a history, and what the user is told; loading a history says
    /// nothing of its own.
    Page { page: HistoryPage, status: String },
    /// The work failed.
    Failed(String),
}

/// Whether what came of some work can have come of a command.
pub open spec fn answers(finished: Finished, command: Command) -> bool {
    match finished {
        Finished::Failed(_) => true,
        Finished::Ready(_) => command is Initialize,
        Finished::Verified { .. } => command is VerifyContact,
        Finished::Page { .. } => !(command is Initialize) && !(command is VerifyContact),
    }
}

/// What the user is told once a page has been loaded.
pub open spec fn page_status(command: Command, status: Seq<char>) -> Seq<char> {
    match command {
        Command::LoadHistory { .. } => "Chat history loaded."@,
        Command::LoadOlderHistory { .. } => "Older messages loaded."@,
        _ => status,
    }
}

/// The event of work that succeeded.
pub open spec fn finished_event(command: Command, finished: Finished) -> EventView {
    match finished {
        Finished::Ready(ready) => EventView::ProfileReady {
            profile: ready.profile@,
            fingerprint: ready.fingerprint@,
            bundle: ready.bundle@,
            contact: match ready.contact {
                Some((name, bundle)) => Some((name@, bundle@)),
                None => None,
            },
        },
        Finished::Verified { name, status } => EventView::ContactAdded {
            name: name@,
            bundle: command->VerifyContact_bundle@,
            status: status@,
        },
        Finished::Page { page, status } => EventView::ChatUpdated {
            messages: ui_state::message_views(page.messages@),
            status: page_status(command, status@),
            history_cursor: page.cursor,
            has_more: page.has_more,
            prepend: command is LoadOlderHistory,
        },
        Finished::Failed(_) => arbitrary(),
    }
}

/// The session after a command: unlocking a profile opens one.
pub open spec fn session_after(
    session: Option<SessionView>,
    command: Command,
    finished: Finished,
) -> Option<SessionView> {
    match finished {
        Finished::Ready(ready) => Some(
            SessionView {
                profile: ready.profile@,
                password: command->Initialize_password@,
            },
        ),
        _ => session,
    }
}

/// Makes an event of what came of the work for a command.
pub fn finish_command(
    session: &mut Option<ProfileSession>,
    command: Command,
    finished: Finished,
) -> (result: Result<Event, ServiceError>)
    requires
        answers(finished, command),
    ensures
        session_view(*final(session)) == session_after(session_view(*old(session)), command, finished),
        match finished {
            Finished::Failed(source) => result matches Err(error) && error.operation
                == ui_state::command_operation(command) && error.source@ == source@,
            _ => result matches Ok(event) && event@ == finished_event(command, finished),
        },
{
    let operation = command.operation();
    match finished {
        Finished::Failed(source) => Err(ServiceError::new(operation, source)),
        Finished::Ready(ready) => {
            if let Command::Initialize { profile: _, password, confirmation: _ } = command {
                *session = Some(ProfileSession { profile: ready.profile.clone(), password });
            }
            Ok(
                Event::ProfileReady {
                    profile: ready.profile,
                    fingerprint: ready.fingerprint,
                    bundle: ready.bundle,
                    contact: ready.contact,
                },
            )
        },
        Finished::Verified { name, status } => {
            let bundle = match command {
                Command::VerifyContact { profile: _, password: _, bundle, fingerprint: _ } => bundle,
                _ => String::new(),
            };
            Ok(Event::ContactAdded { name, bundle, status })
        },
        Finished::Page { page, status } => {
            let mut prepend = false;
            let told = match command {
                Command::LoadHistory { .. } => "Chat history loaded.".to_owned(),
                Command::LoadOlderHistory { .. } => {
                    prepend = true;
                    "Older messages loaded.".to_owned()
                },
                _ => status,
            };
            Ok(
                Event::ChatUpdated {
                    messages: page.messages,
                    status: told,
                    history_cursor: page.cursor,
                    has_more: page.has_more,
                    prepend,
                },
            )
        },
    }
}

/// What the client is told of an error: which operation failed, and nothing of why.
pub fn error_event(error: &ServiceError) -> (event: Event)
    ensures
        event@ == (EventView::Error {
            operation: error.operation,
            message: "operation failed; see the application log for details"@,
        }),
{
    Event::Error {
        operation: error.operation,
        message: "operation failed; see the application log for details".to_owned(),
    }
}

// ---------------------------------------------------------------------------
// Conversations by copy and paste
// ---------------------------------------------------------------------------

/// What the user is told once a message can be copied.
pub const PASTE_SENT: &'static str = "Encrypted message ready. Click the message to copy its ciphertext.";

/// What the user is told once a pasted message has been read.
pub const PASTE_RECEIVED: &'static str = "Encrypted message received.";

/// The entry of a message that is to be copied.
pub open spec fn copied_entry(
    now: u64,
    peer: BundleView,
    plaintext: Seq<char>,
    message_id: Seq<char>,
    envelope: Seq<u8>,
) -> EntryView {
    let address = signal::address_text(peer.name, peer.device_id);
    EntryView {
        timestamp: now,
        sender: "you"@,
        text: plaintext,
        message_id,
        peer: address,
        ciphertext: primitives::base64_url(envelope),
        delivery_status: "copied"@,
        transport_recipient: address,
    }
}

fn push_entry(history: &mut HistoryFile, entry: HistoryEntry)
    ensures
        final(history)@ == chat::with_entry(old(history)@, entry@),
{
    let ghost before = history.entries@;
    history.entries.push(entry);
    assert(history::entry_views(history.entries@) =~= history::entry_views(before).push(entry@));
}

/// Keeps a message that was encrypted to be copied, and gives its text.
pub fn perform_paste_send(
    history: &mut HistoryFile,
    now: u64,
    peer: &SignalPreKeyBundle,
    plaintext: &str,
    message_id: MessageId,
    envelope: &[u8],
) -> (encoded: String)
    ensures
        encoded@ == primitives::base64_url(envelope@),
        final(history)@ == chat::with_entry(
            old(history)@,
            copied_entry(now, peer@, plaintext@, text::hex(message_id@), envelope@),
        ),
{
    let encoded = envelope_text(envelope);
    let entry = HistoryEntry::new(now, "you".to_owned(), plaintext.to_owned()).with_message_id(
        message_id.encode(),
    ).with_peer(peer.address()).with_ciphertext(encoded.clone()).with_delivery_status(
        "copied".to_owned(),
    ).with_transport_recipient(peer.address());
    push_entry(history, entry);
    encoded
}

/// Reads a pasted message up to its ciphertext.
pub fn pasted_envelope(ciphertext: &str) -> (result: Result<Vec<u8>, TextError>)
    ensures
        match transport::line_bytes(text::trimmed(ciphertext@)) {
            Some(value) => result matches Ok(bytes) && bytes@ == value,
            None => result == Err::<Vec<u8>, TextError>(TextError::InvalidMessage),
        },
{
    TextTransport.decode(trim(ciphertext).as_str())
}

/// The entry of a message that was pasted.
pub open spec fn pasted_entry(
    now: u64,
    peer: BundleView,
    plaintext: Seq<char>,
    message_id: Seq<char>,
    ciphertext: Seq<char>,
) -> EntryView {
    EntryView {
        timestamp: now,
        sender: peer.name,
        text: plaintext,
        message_id,
        peer: signal::address_text(peer.name, peer.device_id),
        ciphertext: text::trimmed(ciphertext),
        delivery_status: "received"@,
        transport_recipient: Seq::empty(),
    }
}

/// A decrypted message that is no UTF-8 text.
#[derive(Debug, PartialEq, Eq)]
pub struct NotText;

fn knows_id(entries: &Vec<HistoryEntry>, id: &str) -> (known: bool)
    ensures
        known == chat::has_id(history::entry_views(entries@), id@),
{
    let mut index: usize = 0;
    while index < entries.len()
        invariant
            index <= entries@.len(),
            forall|i: int| 0 <= i < index ==> (#[trigger] history::entry_views(entries@)[i]).message_id
                != id@,
        decreases entries@.len() - index,
    {
        assert(history::entry_views(entries@)[index as int] == entries@[index as int]@);
        if same_text(entries[index].message_id.as_str(), id) {
            return true;
        }
        index += 1;
    }
    false
}

/// A history after a message was pasted.
pub open spec fn pasted_into(
    h: HistoryView,
    now: u64,
    peer: BundleView,
    message: SafeChatMessageView,
    ciphertext: Seq<char>,
) -> HistoryView {
    let id = text::hex(message.id);
    if chat::has_id(h.entries, id) || !valid_utf8(message.plaintext) {
        h
    } else {
        chat::with_entry(
            h,
            pasted_entry(now, peer, decode_utf8(message.plaintext), id, ciphertext),
        )
    }
}

/// Keeps a message that was pasted, unless it is known already, and says whether
/// the history has to be saved.
pub fn perform_paste_receive(
    history: &mut HistoryFile,
    now: u64,
    peer: &SignalPreKeyBundle,
    message: SafeChatMessage,
    ciphertext: &str,
) -> (result: Result<bool, NotText>)
    ensures
        ({
            let id = text::hex(message@.id);
            if chat::has_id(old(history)@.entries, id) {
                result == Ok::<bool, NotText>(false) && final(history)@ == old(history)@
            } else if valid_utf8(message@.plaintext) {
                &&& result == Ok::<bool, NotText>(true)
                &&& final(history)@ == chat::with_entry(
                    old(history)@,
                    pasted_entry(now, peer@, decode_utf8(message@.plaintext), id, ciphertext@),
                )
            } else {
                result is Err && final(history)@ == old(history)@
            }
        }),
        final(history)@ == pasted_into(old(history)@, now, peer@, message@, ciphertext@),
{
    let id = message.id.encode();
    if knows_id(&history.entries, id.as_str()) {
        return Ok(false);
    }
    match utf8_string(message.plaintext) {
        None => Err(NotText),
        Some(plaintext) => {
            let entry = HistoryEntry::new(now, peer.name.clone(), plaintext).with_message_id(
                id,
            ).with_peer(peer.address()).with_ciphertext(trim(ciphertext)).with_delivery_status(
                "received".to_owned(),
            );
            push_entry(history, entry);
            Ok(true)
        },
    }
}

/// Pasting the same message again changes nothing: once it is kept its ID is known.
pub proof fn law_pasted_message_is_kept_once(
    entries: Seq<EntryView>,
    now: u64,
    peer: BundleView,
    plaintext: Seq<char>,
    id: Seq<char>,
    ciphertext: Seq<char>,
)
    ensures
        chat::has_id(entries.push(pasted_entry(now, peer, plaintext, id, ciphertext)), id),
{
    let kept = entries.push(pasted_entry(now, peer, plaintext, id, ciphertext));
    assert(kept[entries.len() as int].message_id == id);
}

// ---------------------------------------------------------------------------
// Conversations through a relay
// ---------------------------------------------------------------------------

/// What the user is told once a conversation has been brought up to date.
pub open spec fn relay_status(sent: Option<ChatEvent>, events: Seq<ChatEvent>) -> Seq<char> {
    match sent {
        Some(ChatEvent::Sent { .. }) => "Message sent."@,
        None => if exists|i: int| 0 <= i < events.len() && (#[trigger] events[i]) is Received {
            "New message received."@
        } else {
            "Chat is up to date."@
        },
        _ => "Chat is up to date."@,
    }
}

/// Says what came of sending a text, if there was one, and of fetching what the
/// relay holds.
pub fn perform_chat_action(sent: &Option<ChatEvent>, events: &Vec<ChatEvent>) -> (status: &'static str)
    ensures
        status@ == relay_status(*sent, events@),
{
    match sent {
        Some(ChatEvent::Sent { .. }) => "Message sent.",
        None => {
            let mut index: usize = 0;
            while index < events.len()
                invariant
                    *sent is None,
                    index <= events@.len(),
                    forall|i: int| 0 <= i < index ==> !((#[trigger] events@[i]) is Received),
                decreases events@.len() - index,
            {
                if let ChatEvent::Received { .. } = &events[index] {
                    assert(events@[index as int] is Received);
                    return "New message received.";
                }
                index += 1;
            }
            "Chat is up to date."
        },
        _ => "Chat is up to date.",
    }
}

// ---------------------------------------------------------------------------
// The window
// ---------------------------------------------------------------------------

/// A message as the window shows it.
#[derive(Clone, Debug, PartialEq, Eq)]
pub struct ChatMessage {
    pub sender: String,
    pub text: String,
    pub timestamp: String,
    pub outgoing: bool,
    pub status: String,
    pub ciphertext: String,
}

/// A message as the window shows it, with its time written out.
pub fn project_message(message: ConversationMessage, timestamp: String) -> (shown: ChatMessage)
    ensures
        shown.sender@ == message@.sender,
        shown.text@ == message@.text,
        shown.timestamp@ == timestamp@,
        shown.outgoing == message@.outgoing,
        shown.status@ == message@.status,
        shown.ciphertext@ == message@.ciphertext,
{
    ChatMessage {
        sender: message.sender,
        text: message.text,
        timestamp,
        outgoing: message.outgoing,
        status: message.status,
        ciphertext: message.ciphertext,
    }
}

/// A message as the window shows it, with its time in the time zone of the machine.
pub fn to_slint_message(message: ConversationMessage) -> (shown: ChatMessage)
    requires
        message.timestamp < timestamps::LAST_CALENDAR_DAY || timestamps::LAST_CALENDAR_SECOND
            < message.timestamp,
    ensures
        shown.sender@ == message@.sender,
        shown.text@ == message@.text,
        shown.outgoing == message@.outgoing,
        shown.status@ == message@.status,
        shown.ciphertext@ == message@.ciphertext,
        message.timestamp > timestamps::LAST_CALENDAR_SECOND ==> shown.timestamp@
            == text::decimal(message.timestamp as nat),
        message.timestamp < timestamps::LAST_CALENDAR_DAY ==> timestamps::is_shown_time(
            message.timestamp,
            shown.timestamp@,
        ),
{
    let timestamp = format_timestamp(message.timestamp);
    project_message(message, timestamp)
}

/// What is shown once a command could not be handed to the worker.
pub open spec fn refused(v: UiView, what: Seq<char>, error: Seq<char>) -> UiView {
    UiView { status: what + ": "@ + error, chat_loading: false, history_loading: false, ..v }
}

impl UiState {
    fn set_status(&mut self, status: &str)
        ensures
            final(self)@ == (UiView { status: status@, ..old(self)@ }),
    {
        self.status = status.to_owned();
    }

    /// The user selected a profile.
    pub fn select_profile(&mut self, profile: &str)
        ensures
            final(self)@ == (UiView {
                profile_name: profile@,
                selected_profile: profile@,
                profile_exists: true,
                status: "Selected profile: "@ + profile@,
                ..old(self)@
            }),
    {
        self.profile_name = profile.to_owned();
        self.selected_profile = profile.to_owned();
        self.profile_exists = true;
        let mut status = "Selected profile: ".to_owned();
        status.append(profile);
        self.status = status;
    }

    /// The user turned to creating a profile, or back.
    pub fn begin_create_profile(&mut self)
        ensures
            final(self)@ == (UiView {
                creating_profile: !old(self)@.creating_profile,
                ..old(self)@
            }),
    {
        self.creating_profile = !self.creating_profile;
    }

    /// The user opened the form for a new chat.
    pub fn new_chat(&mut self)
        ensures
            final(self)@ == (UiView { new_chat_open: true, ..old(self)@ }),
    {
        self.new_chat_open = true;
    }

    /// The user gave a bundle and a fingerprint.
    pub fn verify_add_contact(&mut self, bundle: &str, fingerprint: &str, password: &str) -> (command:
        Command)
        ensures
            command matches Command::VerifyContact { profile, password: p, bundle: b, fingerprint: f }
                && profile@ == old(self)@.profile_name && p@ == password@ && b@ == bundle@ && f@
                == fingerprint@,
            final(self)@ == ui_state::prepared(old(self)@, command),
    {
        let command = Command::VerifyContact {
            profile: self.profile_name.clone(),
            password: password.to_owned(),
            bundle: bundle.to_owned(),
            fingerprint: fingerprint.to_owned(),
        };
        self.prepare(&command);
        command
    }

    /// The user selected the contact: through the relay its messages are fetched,
    /// otherwise its history is loaded.
    pub fn select_contact(&mut self) -> (command: Option<Command>)
        ensures
            if old(self)@.contact_bundle.len() == 0 || old(self)@.chat_loading {
                command is None && final(self)@ == old(self)@
            } else {
                &&& command is Some
                &&& final(self)@ == ui_state::opened(old(self)@)
                &&& if old(self)@.selected_transport == TransportKind::Relay {
                    command matches Some(Command::Poll { peer }) && peer@
                        == old(self)@.contact_bundle
                } else {
                    command matches Some(Command::LoadHistory { peer }) && peer@
                        == old(self)@.contact_bundle
                }
            },
    {
        if self.contact_bundle.as_str().is_empty() || self.chat_loading {
            return None;
        }
        let peer = self.contact_bundle.clone();
        let command = if self.selected_transport == TransportKind::Relay {
            Command::Poll { peer }
        } else {
            Command::LoadHistory { peer }
        };
        self.prepare(&command);
        Some(command)
    }

    /// The user asked for older messages.
    pub fn load_older_history(&mut self) -> (command: Option<Command>)
        ensures
            if old(self)@.chat_loading || !old(self)@.history_has_more
                || old(self)@.contact_bundle.len() == 0 {
                command is None && final(self)@ == old(self)@
            } else {
                command matches Some(asked) && final(self)@ == ui_state::prepared(old(self)@, asked)
                    && (asked matches Command::LoadOlderHistory { peer, before } && peer@
                    == old(self)@.contact_bundle && before == old(self)@.history_cursor)
            },
    {
        if self.chat_loading || !self.history_has_more || self.contact_bundle.as_str().is_empty() {
            return None;
        }
        let command = Command::LoadOlderHistory {
            peer: self.contact_bundle.clone(),
            before: self.history_cursor,
        };
        self.prepare(&command);
        Some(command)
    }

    /// The user chose a transport by its name.
    pub fn choose_transport(&mut self, name: &str)
        ensures
            final(self)@ == (if name@ == ui_state::transport_name(TransportKind::CopyPaste) {
                UiView {
                    selected_transport: TransportKind::CopyPaste,
                    status: "Selected transport: "@ + name@,
                    ..old(self)@
                }
            } else if name@ == ui_state::transport_name(TransportKind::Relay) {
                UiView {
                    selected_transport: TransportKind::Relay,
                    status: "Selected transport: "@ + name@,
                    ..old(self)@
                }
            } else {
                old(self)@
            }),
    {
        if let Some(transport) = TransportKind::parse(name) {
            proof {
                if transport == TransportKind::Relay && name@ == ui_state::transport_name(
                    TransportKind::CopyPaste,
                ) {
                    ui_state::law_transport_names_differ(transport, TransportKind::CopyPaste);
                }
            }
            self.select_transport(transport);
        }
    }

    /// The user wrote a message.
    pub fn send_message(&mut self, message: &str) -> (command: Option<Command>)
        ensures
            if old(self)@.contact_bundle.len() == 0 {
                command is None && final(self)@ == (UiView {
                    status: "Add and select a contact first."@,
                    ..old(self)@
                })
            } else if text::trimmed(message@).len() == 0 {
                command is None && final(self)@ == (UiView {
                    status: "Type a message first."@,
                    ..old(self)@
                })
            } else {
                command matches Some(asked) && final(self)@ == ui_state::prepared(old(self)@, asked)
                    && (asked matches Command::Send { peer, transport, text } && peer@
                    == old(self)@.contact_bundle && transport == old(self)@.selected_transport
                    && text@ == message@)
            },
    {
        if self.contact_bundle.as_str().is_empty() {
            self.set_status("Add and select a contact first.");
            None
        } else if trim(message).as_str().is_empty() {
            self.set_status("Type a message first.");
            None
        } else {
            let command = Command::Send {
                peer: self.contact_bundle.clone(),
                transport: self.selected_transport,
                text: message.to_owned(),
            };
            self.prepare(&command);
            Some(command)
        }
    }

    /// The user pasted an encrypted message.
    pub fn receive_pasted(&mut self, ciphertext: &str) -> (command: Option<Command>)
        ensures
            if old(self)@.contact_bundle.len() == 0 {
                command is None && final(self)@ == (UiView {
                    status: "Add and select a contact first."@,
                    ..old(self)@
                })
            } else if text::trimmed(ciphertext@).len() == 0 {
                command is None && final(self)@ == (UiView {
                    status: "Paste an encrypted message first."@,
                    ..old(self)@
                })
            } else {
                command matches Some(asked) && final(self)@ == ui_state::prepared(old(self)@, asked)
                    && (asked matches Command::ReceivePasted { peer, ciphertext: c } && peer@
                    == old(self)@.contact_bundle && c@ == ciphertext@)
            },
    {
        if self.contact_bundle.as_str().is_empty() {
            self.set_status("Add and select a contact first.");
            None
        } else if trim(ciphertext).as_str().is_empty() {
            self.set_status("Paste an encrypted message first.");
            None
        } else {
            let command = Command::ReceivePasted {
                peer: self.contact_bundle.clone(),
                ciphertext: ciphertext.to_owned(),
            };
            self.prepare(&command);
            Some(command)
        }
    }

    /// Some seconds have passed since the relay was asked last: every three seconds
    /// an open conversation through the relay is brought up to date.
    pub fn poll_due(&mut self, seconds: u64) -> (command: Option<Command>)
        ensures
            if seconds >= 3 && old(self)@.profile_ready && old(self)@.conversation_selected
                && old(self)@.selected_transport == TransportKind::Relay && !old(self)@.chat_loading
                && old(self)@.contact_bundle.len() > 0 {
                command matches Some(asked) && final(self)@ == ui_state::prepared(old(self)@, asked)
                    && (asked matches Command::Poll { peer } && peer@ == old(self)@.contact_bundle)
            } else {
                command is None && final(self)@ == old(self)@
            },
    {
        if seconds >= 3 && self.profile_ready && self.conversation_selected
            && self.selected_transport == TransportKind::Relay && !self.chat_loading
            && !self.contact_bundle.as_str().is_empty() {
            let command = Command::Poll { peer: self.contact_bundle.clone() };
            self.prepare(&command);
            Some(command)
        } else {
            None
        }
    }

    /// The worker did not take a command that concerns the conversation.
    pub fn submit_failed(&mut self, what: &str, error: &str)
        ensures
            final(self)@ == refused(old(self)@, what@, error@),
    {
        let mut status = what.to_owned();
        status.append(": ");
        status.append(error);
        self.status = status;
        self.chat_loading = false;
        self.history_loading = false;
    }

    /// Something was copied to the clipboard, or could not be.
    pub fn copied(&mut self, what: &str, error: Option<&str>)
        ensures
            final(self)@ == (UiView {
                status: match error {
                    None => what@ + " copied to clipboard."@,
                    Some(reason) => "Could not copy to clipboard: "@ + reason@,
                },
                ..old(self)@
            }),
    {
        let mut status = String::new();
        match error {
            None => {
                status.append(what);
                assert(status@ =~= what@);
                status.append(" copied to clipboard.");
            },
            Some(reason) => {
                status.append("Could not copy to clipboard: ");
                assert(status@ =~= "Could not copy to clipboard: "@);
                status.append(reason);
            },
        }
        self.status = status;
    }
}

// ---------------------------------------------------------------------------
// What is done for a command, and what is kept
// ---------------------------------------------------------------------------

/// What is done for a command about a conversation is done in the session, with the peer
/// that the command names and with what it gives. A text to be pasted is not sent, and a
/// text to be sent is not pasted.
pub proof fn law_work_is_what_the_command_asks(session: SessionView, command: Command)
    ensures
        command matches Command::LoadHistory { peer } ==> work_for(Some(session), command) == Some(
            WorkView::LoadPage { session, peer: peer@, before: None, page_size: 40 },
        ),
        command matches Command::LoadOlderHistory { peer, before } ==> work_for(
            Some(session),
            command,
        ) == Some(
            WorkView::LoadPage { session, peer: peer@, before: Some(before), page_size: 40 },
        ),
        command matches Command::Send { peer, transport, text } ==> work_for(Some(session), command)
            == Some(
            match transport {
                TransportKind::CopyPaste => WorkView::PasteSend {
                    session,
                    peer: peer@,
                    text: text@,
                },
                TransportKind::Relay => WorkView::ChatAction {
                    session,
                    peer: peer@,
                    text: Some(text@),
                },
            },
        ),
        command matches Command::ReceivePasted { peer, ciphertext } ==> work_for(
            Some(session),
            command,
        ) == Some(WorkView::PasteReceive { session, peer: peer@, ciphertext: ciphertext@ }),
        command matches Command::Poll { peer } ==> work_for(Some(session), command) == Some(
            WorkView::ChatAction { session, peer: peer@, text: None },
        ),
{
}

/// A profile is unlocked and a contact verified with what the command gives, whether a
/// session is open or not.
pub proof fn law_unlocking_needs_no_session(session: Option<SessionView>, command: Command)
    ensures
        command matches Command::Initialize { profile, password, confirmation } ==> work_for(
            session,
            command,
        ) == Some(
            WorkView::Initialize {
                profile: profile@,
                password: password@,
                confirmation: confirmation@,
            },
        ),
        command matches Command::VerifyContact { profile, password, bundle, fingerprint }
            ==> work_for(session, command) == Some(
            WorkView::VerifyContact {
                profile: profile@,
                password: password@,
                bundle: bundle@,
                fingerprint: fingerprint@,
            },
        ),
{
}

/// A page that was loaded is reported as it is, in front of what is shown exactly where
/// older messages were asked for. A contact is reported with the bundle that was to be
/// verified. Only a profile that is ready opens a session, with its own name and the
/// password that unlocked it.
pub proof fn law_results_are_reported_as_they_are(
    session: Option<SessionView>,
    command: Command,
    finished: Finished,
)
    requires
        answers(finished, command),
    ensures
        finished matches Finished::Page { page, status } ==> {
            let event = finished_event(command, finished);
            &&& event is ChatUpdated
            &&& event->messages == ui_state::message_views(page.messages@)
            &&& event->history_cursor == page.cursor
            &&& event->has_more == page.has_more
            &&& event->prepend <==> command is LoadOlderHistory
            &&& !(command is LoadHistory || command is LoadOlderHistory)
                ==> event->ChatUpdated_status == status@
        },
        finished matches Finished::Verified { name, status } ==> {
            let event = finished_event(command, finished);
            &&& event is ContactAdded
            &&& event->name == name@
            &&& event->ContactAdded_status == status@
            &&& command matches Command::VerifyContact { bundle, .. }
            &&& event->ContactAdded_bundle == bundle@
        },
        finished matches Finished::Ready(ready) ==> {
            let event = finished_event(command, finished);
            &&& event is ProfileReady
            &&& event->profile == ready.profile@
            &&& event->fingerprint == ready.fingerprint@
            &&& event->ProfileReady_bundle == ready.bundle@
            &&& command matches Command::Initialize { password, .. }
            &&& session_after(session, command, finished) == Some(
                SessionView { profile: ready.profile@, password: password@ },
            )
        },
        !(finished is Ready) ==> session_after(session, command, finished) == session,
{
}

/// A message that is encrypted to be copied is kept behind all others as one of this
/// side. A message that is pasted is kept as one of the peer, unless it is there already
/// or is no text. Each has its own ID, text and ciphertext, and no other entry changes.
pub proof fn law_pasted_messages_are_kept_as_they_are(
    h: HistoryView,
    now: u64,
    peer: BundleView,
    message: SafeChatMessageView,
    plaintext: Seq<char>,
    envelope: Seq<u8>,
    ciphertext: Seq<char>,
)
    ensures
        ({
            let entry = copied_entry(
                now,
                peer,
                plaintext,
                text::hex(message.id),
                envelope,
            );
            &&& entry.timestamp == now
            &&& entry.sender == "you"@
            &&& entry.text == plaintext
            &&& entry.message_id == text::hex(message.id)
            &&& entry.peer == signal::address_text(peer.name, peer.device_id)
            &&& entry.transport_recipient == entry.peer
            &&& entry.delivery_status == "copied"@
            &&& transport::line_bytes(entry.ciphertext) == Some(envelope)
        }),
        ({
            let after = pasted_into(h, now, peer, message, ciphertext);
            let known = exists|i: int|
                0 <= i < h.entries.len() && (#[trigger] h.entries[i]).message_id == text::hex(
                    message.id,
                );
            let last = h.entries.len() as int;
            &&& known || !valid_utf8(message.plaintext) ==> after == h
            &&& !known && valid_utf8(message.plaintext) ==> {
                &&& after.entries.len() == last + 1
                &&& forall|i: int| 0 <= i < last ==> #[trigger] after.entries[i] == h.entries[i]
                &&& after.transport_cursor == h.transport_cursor
                &&& after.version == h.version
                &&& after.entries[last].timestamp == now
                &&& after.entries[last].sender == peer.name
                &&& after.entries[last].text == decode_utf8(message.plaintext)
                &&& after.entries[last].message_id == text::hex(message.id)
                &&& after.entries[last].peer == signal::address_text(peer.name, peer.device_id)
                &&& after.entries[last].ciphertext == text::trimmed(ciphertext)
                &&& after.entries[last].delivery_status == "received"@
            }
        }),
{
    let encoded = primitives::base64_url(envelope);
    transport::lemma_encoding_trimmed(envelope, Seq::empty());
    assert(encoded + Seq::<char>::empty() =~= encoded);
    primitives::law_base64_round_trip(envelope);
}

/// A message that was sent is said to be sent. Where only new messages were asked for,
/// they are said to be there exactly where one was received.
pub proof fn law_status_says_what_came(sent: ChatEvent, events: Seq<ChatEvent>, i: int)
    ensures
        sent is Sent ==> relay_status(Some(sent), events) == "Message sent."@,
        0 <= i < events.len() && events[i] is Received ==> relay_status(None, events)
            == "New message received."@,
        (forall|k: int| 0 <= k < events.len() ==> !((#[trigger] events[k]) is Received))
            ==> relay_status(None, events) == "Chat is up to date."@,
{
}

} // verus!
