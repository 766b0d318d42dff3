//! What the desktop client shows, and how commands and events change it.
use vstd::prelude::*;

use crate::history;
use crate::history::{EntryView, HistoryEntry, HistoryFile, HistoryPage as StoredPage};
use crate::text;
use crate::text::same_text;

verus! {

/// How messages of a conversation travel.
#[derive(Clone, Copy, Debug, PartialEq, Eq, Structural)]
pub enum TransportKind {
    CopyPaste,
    Relay,
}

/// The name of a transport.
pub open spec fn transport_name(kind: TransportKind) -> Seq<char> {
    match kind {
        TransportKind::CopyPaste => "Copy/paste"@,
        TransportKind::Relay => "Relay"@,
    }
}

impl TransportKind {
    /// The name of the transport.
    pub fn text(self) -> (name: &'static str)
        ensures
            name@ == transport_name(self),
    {
        match self {
            TransportKind::CopyPaste => "Copy/paste",
            TransportKind::Relay => "Relay",
        }
    }

    /// The transport with a name.
    pub fn parse(value: &str) -> (kind: Option<TransportKind>)
        ensures
            match kind {
                Some(found) => value@ == transport_name(found),
                None => value@ != transport_name(TransportKind::CopyPaste) && value@
                    != transport_name(TransportKind::Relay),
            },
    {
        if same_text(value, "Copy/paste") {
            Some(TransportKind::CopyPaste)
        } else if same_text(value, "Relay") {
            Some(TransportKind::Relay)
        } else {
            None
        }
    }
}

/// The two transports have different names, so that a name stands for one of
/// them.
pub proof fn law_transport_names_differ(left: TransportKind, right: TransportKind)
    requires
        transport_name(left) == transport_name(right),
    ensures
        left == right,
{
    reveal_strlit("Copy/paste");
    reveal_strlit("Relay");
    assert("Copy/paste"@.len() == 10);
    assert("Relay"@.len() == 5);
}

/// Boundary for choosing a transport.
pub trait TransportSelector {
    fn options(&self) -> Vec<String>;

    fn parse(&self, value: &str) -> Option<TransportKind>;
}

/// Offers every transport there is.
pub struct DefaultTransportSelector;

impl TransportSelector for DefaultTransportSelector {
    fn options(&self) -> (options: Vec<String>)
        ensures
            options@.len() == 2,
            options@[0]@ == transport_name(TransportKind::CopyPaste),
            options@[1]@ == transport_name(TransportKind::Relay),
    {
        let mut options: Vec<String> = Vec::new();
        options.push(TransportKind::CopyPaste.text().to_owned());
        options.push(TransportKind::Relay.text().to_owned());
        options
    }

    fn parse(&self, value: &str) -> (kind: Option<TransportKind>)
        ensures
            match kind {
                Some(found) => value@ == transport_name(found),
                None => value@ != transport_name(TransportKind::CopyPaste) && value@
                    != transport_name(TransportKind::Relay),
            },
    {
        TransportKind::parse(value)
    }
}

/// A message as a conversation shows it.
#[derive(Clone, Debug, PartialEq, Eq)]
pub struct ConversationMessage {
    pub sender: String,
    pub text: String,
    pub timestamp: u64,
    pub outgoing: bool,
    pub status: String,
    pub ciphertext: String,
}

/// The contents of a [`ConversationMessage`].
#[verifier::ext_equal]
pub struct MessageView {
    pub sender: Seq<char>,
    pub text: Seq<char>,
    pub timestamp: u64,
    pub outgoing: bool,
    pub status: Seq<char>,
    pub ciphertext: Seq<char>,
}

impl View for ConversationMessage {
    type V = MessageView;

    open spec fn view(&self) -> MessageView {
        MessageView {
            sender: self.sender@,
            text: self.text@,
            timestamp: self.timestamp,
            outgoing: self.outgoing,
            status: self.status@,
            ciphertext: self.ciphertext@,
        }
    }
}

/// The contents of every message of a list.
pub open spec fn message_views(messages: Seq<ConversationMessage>) -> Seq<MessageView> {
    messages.map_values(|message: ConversationMessage| message@)
}

/// An entry as a conversation shows it: the local sender is labelled `You`.
pub open spec fn rendered(entry: EntryView) -> MessageView {
    MessageView {
        sender: if entry.sender == "you"@ {
            "You"@
        } else {
            entry.sender
        },
        text: entry.text,
        timestamp: entry.timestamp,
        outgoing: entry.sender == "you"@,
        status: entry.delivery_status,
        ciphertext: entry.ciphertext,
    }
}

/// Entries as a conversation shows them.
pub open spec fn rendered_all(entries: Seq<EntryView>) -> Seq<MessageView> {
    entries.map_values(|entry: EntryView| rendered(entry))
}

fn render_entry(entry: &HistoryEntry) -> (message: ConversationMessage)
    ensures
        message@ == rendered(entry@),
{
    let outgoing = same_text(entry.sender.as_str(), "you");
    ConversationMessage {
        sender: if outgoing {
            "You".to_owned()
        } else {
            entry.sender.clone()
        },
        text: entry.text.clone(),
        timestamp: entry.timestamp,
        outgoing,
        status: entry.delivery_status.clone(),
        ciphertext: entry.ciphertext.clone(),
    }
}

fn render_entries(entries: &[HistoryEntry]) -> (messages: Vec<ConversationMessage>)
    ensures
        message_views(messages@) == rendered_all(history::entry_views(entries@)),
{
    let mut messages: Vec<ConversationMessage> = Vec::new();
    let mut index: usize = 0;
    let ghost all = rendered_all(history::entry_views(entries@));
    assert(message_views(messages@) =~= all.take(0));
    while index < entries.len()
        invariant
            index <= entries@.len(),
            all == rendered_all(history::entry_views(entries@)),
            message_views(messages@) == all.take(index as int),
        decreases entries@.len() - index,
    {
        let ghost before = messages@;
        messages.push(render_entry(&entries[index]));
        assert(message_views(messages@) =~= message_views(before).push(
            rendered(entries@[index as int]@),
        ));
        assert(message_views(messages@) =~= all.take(index + 1));
        index += 1;
    }
    assert(all.take(index as int) =~= all);
    messages
}

/// How many messages of a conversation are shown at a time.
pub const HISTORY_PAGE_SIZE: usize = 40;

/// A page of a conversation.
#[derive(Clone, Debug, PartialEq, Eq)]
pub struct HistoryPage {
    pub messages: Vec<ConversationMessage>,
    pub cursor: usize,
    pub has_more: bool,
}

/// Shows a stored page.
pub fn render_core_page(page: &StoredPage) -> (shown: HistoryPage)
    ensures
        message_views(shown.messages@) == rendered_all(history::entry_views(page.entries@)),
        shown.cursor == page.cursor,
        shown.has_more == page.has_more,
{
    HistoryPage {
        messages: render_entries(page.entries.as_slice()),
        cursor: page.cursor,
        has_more: page.has_more,
    }
}

/// Shows the page of a history that ends in front of `before`, or the newest.
pub fn render_history_page(history: &HistoryFile, before: Option<usize>) -> (shown: HistoryPage)
    ensures
        ({
            let length = history@.entries.len() as int;
            let start = history::page_start(length, before, HISTORY_PAGE_SIZE);
            &&& message_views(shown.messages@) == rendered_all(
                history@.entries.subrange(start, history::page_end(length, before)),
            )
            &&& shown.cursor == start
            &&& shown.has_more == (start > 0)
        }),
{
    render_core_page(&history.page(before, HISTORY_PAGE_SIZE))
}

/// Shows a whole history.
pub fn render_history(history: &HistoryFile) -> (messages: Vec<ConversationMessage>)
    ensures
        message_views(messages@) == rendered_all(history@.entries),
{
    render_entries(history.entries.as_slice())
}

/// Which part of the client an operation belongs to.
#[derive(Clone, Copy, Debug, PartialEq, Eq, Structural)]
pub enum Operation {
    Profile,
    Contact,
    History,
    Chat,
    Relay,
}

/// The name of an operation in messages to the user.
pub open spec fn operation_name(operation: Operation) -> Seq<char> {
    match operation {
        Operation::Profile => "profile"@,
        Operation::Contact => "contact"@,
        Operation::History => "history"@,
        Operation::Chat => "chat"@,
        Operation::Relay => "relay"@,
    }
}

impl Operation {
    /// The name of the operation in messages to the user.
    pub fn text(self) -> (name: &'static str)
        ensures
            name@ == operation_name(self),
    {
        match self {
            Operation::Profile => "profile",
            Operation::Contact => "contact",
            Operation::History => "history",
            Operation::Chat => "chat",
            Operation::Relay => "relay",
        }
    }
}

/// What the client asks its worker to do.
#[derive(Clone, Debug, PartialEq, Eq)]
pub enum Command {
    Initialize { profile: String, password: String, confirmation: String },
    VerifyContact { profile: String, password: String, bundle: String, fingerprint: String },
    LoadHistory { peer: String },
    LoadOlderHistory { peer: String, before: usize },
    Send { peer: String, transport: TransportKind, text: String },
    ReceivePasted { peer: String, ciphertext: String },
    Poll { peer: String },
}

/// The operation that a command belongs to.
pub open spec fn command_operation(command: Command) -> Operation {
    match command {
        Command::Initialize { .. } => Operation::Profile,
        Command::VerifyContact { .. } => Operation::Contact,
        Command::LoadHistory { .. } => Operation::History,
        Command::LoadOlderHistory { .. } => Operation::History,
        Command::Send { transport, .. } => if transport == TransportKind::Relay {
            Operation::Relay
        } else {
            Operation::Chat
        },
        Command::ReceivePasted { .. } => Operation::Chat,
        Command::Poll { .. } => Operation::Relay,
    }
}

impl Command {
    /// The operation that the command belongs to.
    pub fn operation(&self) -> (operation: Operation)
        ensures
            operation == command_operation(*self),
    {
        match self {
            Command::Initialize { .. } => Operation::Profile,
            Command::VerifyContact { .. } => Operation::Contact,
            Command::LoadHistory { .. } => Operation::History,
            Command::LoadOlderHistory { .. } => Operation::History,
            Command::Send { transport, .. } => {
                if *transport == TransportKind::Relay {
                    Operation::Relay
                } else {
                    Operation::Chat
                }
            },
            Command::ReceivePasted { .. } => Operation::Chat,
            Command::Poll { .. } => Operation::Relay,
        }
    }
}

/// What the worker tells the client.
#[derive(Clone, Debug, PartialEq, Eq)]
pub enum Event {
    ProfileReady {
        profile: String,
        fingerprint: String,
        bundle: String,
        contact: Option<(String, String)>,
    },
    ContactAdded { name: String, bundle: String, status: String },
    ChatUpdated {
        messages: Vec<ConversationMessage>,
        status: String,
        history_cursor: usize,
        has_more: bool,
        prepend: bool,
    },
    Error { operation: Operation, message: String },
}

/// The contents of an [`Event`].
pub enum EventView {
    ProfileReady {
        profile: Seq<char>,
        fingerprint: Seq<char>,
        bundle: Seq<char>,
        contact: Option<(Seq<char>, Seq<char>)>,
    },
    ContactAdded { name: Seq<char>, bundle: Seq<char>, status: Seq<char> },
    ChatUpdated {
        messages: Seq<MessageView>,
        status: Seq<char>,
        history_cursor: usize,
        has_more: bool,
        prepend: bool,
    },
    Error { operation: Operation, message: Seq<char> },
}

impl View for Event {
    type V = EventView;

    open spec fn view(&self) -> EventView {
        match *self {
            Event::ProfileReady { profile, fingerprint, bundle, contact } => EventView::ProfileReady {
                profile: profile@,
                fingerprint: fingerprint@,
                bundle: bundle@,
                contact: match contact {
                    Some((name, bundle)) => Some((name@, bundle@)),
                    None => None,
                },
            },
            Event::ContactAdded { name, bundle, status } => EventView::ContactAdded {
                name: name@,
                bundle: bundle@,
                status: status@,
            },
            Event::ChatUpdated { messages, status, history_cursor, has_more, prepend } =>
            EventView::ChatUpdated {
                messages: message_views(messages@),
                status: status@,
                history_cursor,
                has_more,
                prepend,
            },
            Event::Error { operation, message } => EventView::Error {
                operation,
                message: message@,
            },
        }
    }
}

/// What the client shows.
#[derive(Clone, Debug, PartialEq, Eq)]
pub struct UiState {
    pub language: String,
    pub status: String,
    pub profiles: Vec<String>,
    pub profile_name: String,
    pub selected_profile: String,
    pub profile_exists: bool,
    pub creating_profile: bool,
    pub profile_ready: bool,
    pub fingerprint: String,
    pub public_bundle: String,
    pub contact_name: String,
    pub contact_bundle: String,
    pub contact_added: bool,
    pub conversation_selected: bool,
    pub chat_loading: bool,
    pub history_loading: bool,
    pub loading_text: String,
    pub messages: Vec<ConversationMessage>,
    pub selected_transport: TransportKind,
    pub new_chat_open: bool,
    pub profile_info_open: bool,
    pub history_cursor: usize,
    pub history_has_more: bool,
    pub scroll_to_latest: bool,
    pub scroll_generation: i32,
}

/// The contents of a [`UiState`].
#[verifier::ext_equal]
pub struct UiView {
    pub language: Seq<char>,
    pub status: Seq<char>,
    pub profiles: Seq<Seq<char>>,
    pub profile_name: Seq<char>,
    pub selected_profile: Seq<char>,
    pub profile_exists: bool,
    pub creating_profile: bool,
    pub profile_ready: bool,
    pub fingerprint: Seq<char>,
    pub public_bundle: Seq<char>,
    pub contact_name: Seq<char>,
    pub contact_bundle: Seq<char>,
    pub contact_added: bool,
    pub conversation_selected: bool,
    pub chat_loading: bool,
    pub history_loading: bool,
    pub loading_text: Seq<char>,
    pub messages: Seq<MessageView>,
    pub selected_transport: TransportKind,
    pub new_chat_open: bool,
    pub profile_info_open: bool,
    pub history_cursor: usize,
    pub history_has_more: bool,
    pub scroll_to_latest: bool,
    pub scroll_generation: i32,
}

impl View for UiState {
    type V = UiView;

    open spec fn view(&self) -> UiView {
        UiView {
            language: self.language@,
            status: self.status@,
            profiles: text::views(self.profiles@),
            profile_name: self.profile_name@,
            selected_profile: self.selected_profile@,
            profile_exists: self.profile_exists,
            creating_profile: self.creating_profile,
            profile_ready: self.profile_ready,
            fingerprint: self.fingerprint@,
            public_bundle: self.public_bundle@,
            contact_name: self.contact_name@,
            contact_bundle: self.contact_bundle@,
            contact_added: self.contact_added,
            conversation_selected: self.conversation_selected,
            chat_loading: self.chat_loading,
            history_loading: self.history_loading,
            loading_text: self.loading_text@,
            messages: message_views(self.messages@),
            selected_transport: self.selected_transport,
            new_chat_open: self.new_chat_open,
            profile_info_open: self.profile_info_open,
            history_cursor: self.history_cursor,
            history_has_more: self.history_has_more,
            scroll_to_latest: self.scroll_to_latest,
            scroll_generation: self.scroll_generation,
        }
    }
}

/// What is shown before anything has happened: the first profile is selected, and
/// without one a profile is being created.
pub open spec fn initial_view(profiles: Seq<Seq<char>>) -> UiView {
    let selected = if profiles.len() > 0 {
        profiles[0]
    } else {
        Seq::empty()
    };
    UiView {
        language: "en"@,
        status: "Ready"@,
        profiles,
        profile_name: selected,
        selected_profile: selected,
        profile_exists: selected.len() > 0,
        creating_profile: selected.len() == 0,
        profile_ready: false,
        fingerprint: Seq::empty(),
        public_bundle: Seq::empty(),
        contact_name: Seq::empty(),
        contact_bundle: Seq::empty(),
        contact_added: false,
        conversation_selected: false,
        chat_loading: false,
        history_loading: false,
        loading_text: "Decrypting chat history…"@,
        messages: Seq::empty(),
        selected_transport: TransportKind::CopyPaste,
        new_chat_open: false,
        profile_info_open: false,
        history_cursor: 0,
        history_has_more: false,
        scroll_to_latest: false,
        scroll_generation: 0,
    }
}

/// What is shown while a command is worked on.
pub open spec fn prepared(v: UiView, command: Command) -> UiView {
    match command {
        Command::Initialize { .. } => UiView { status: "Unlocking encrypted profile…"@, ..v },
        Command::VerifyContact { .. } => UiView { status: "Verifying contact…"@, ..v },
        Command::LoadHistory { .. } => opened(v),
        Command::Poll { .. } => opened(v),
        Command::LoadOlderHistory { .. } => UiView {
            chat_loading: true,
            history_loading: true,
            loading_text: "Decrypting chat history…"@,
            status: "Conversation selected."@,
            ..v
        },
        Command::Send { .. } => UiView {
            chat_loading: true,
            history_loading: false,
            loading_text: "Encrypting and sending…"@,
            status: "Encrypting and sending…"@,
            ..v
        },
        Command::ReceivePasted { .. } => UiView {
            chat_loading: true,
            history_loading: false,
            loading_text: "Decrypting pasted message…"@,
            status: "Decrypting pasted message…"@,
            ..v
        },
    }
}

/// What is shown while a conversation is opened.
pub open spec fn opened(v: UiView) -> UiView {
    UiView {
        new_chat_open: false,
        conversation_selected: true,
        chat_loading: true,
        history_loading: true,
        loading_text: "Decrypting chat history…"@,
        status: "Conversation selected."@,
        ..v
    }
}

/// The next number, the smallest one following the largest.
pub open spec fn next_generation(generation: i32) -> i32 {
    if generation == i32::MAX {
        i32::MIN
    } else {
        (generation + 1) as i32
    }
}

/// What is shown once a profile is unlocked.
pub open spec fn profile_shown(
    v: UiView,
    profile: Seq<char>,
    fingerprint: Seq<char>,
    bundle: Seq<char>,
    contact: Option<(Seq<char>, Seq<char>)>,
) -> UiView {
    let ready = UiView {
        profile_name: profile,
        selected_profile: profile,
        profile_exists: true,
        profile_ready: true,
        fingerprint,
        public_bundle: bundle,
        status: "Profile ready. Verify fingerprints through a separate trusted channel."@,
        ..v
    };
    match contact {
        Some((name, bundle)) => UiView {
            contact_name: name,
            contact_bundle: bundle,
            contact_added: true,
            ..ready
        },
        None => ready,
    }
}

/// What is shown once a contact is verified.
pub open spec fn contact_shown(
    v: UiView,
    name: Seq<char>,
    bundle: Seq<char>,
    status: Seq<char>,
) -> UiView {
    UiView {
        contact_name: name,
        contact_bundle: bundle,
        contact_added: true,
        conversation_selected: false,
        chat_loading: false,
        history_loading: false,
        new_chat_open: false,
        status,
        ..v
    }
}

/// What is shown once messages of a conversation have come: older ones go in front
/// of those that are shown, others take their place.
pub open spec fn chat_shown(
    v: UiView,
    messages: Seq<MessageView>,
    status: Seq<char>,
    history_cursor: usize,
    has_more: bool,
    prepend: bool,
) -> UiView {
    UiView {
        messages: if prepend {
            messages + v.messages
        } else {
            messages
        },
        history_cursor,
        history_has_more: has_more,
        scroll_to_latest: !prepend,
        scroll_generation: if prepend {
            v.scroll_generation
        } else {
            next_generation(v.scroll_generation)
        },
        chat_loading: false,
        history_loading: false,
        status,
        ..v
    }
}

/// What is shown once an operation has failed.
pub open spec fn error_shown(v: UiView, operation: Operation, message: Seq<char>) -> UiView {
    UiView {
        chat_loading: false,
        history_loading: false,
        status: operation_name(operation) + " failed: "@ + message,
        ..v
    }
}

/// What is shown after an event.
pub open spec fn applied(v: UiView, event: EventView) -> UiView {
    match event {
        EventView::ProfileReady { profile, fingerprint, bundle, contact } => profile_shown(
            v,
            profile,
            fingerprint,
            bundle,
            contact,
        ),
        EventView::ContactAdded { name, bundle, status } => contact_shown(v, name, bundle, status),
        EventView::ChatUpdated { messages, status, history_cursor, has_more, prepend } =>
        chat_shown(v, messages, status, history_cursor, has_more, prepend),
        EventView::Error { operation, message } => error_shown(v, operation, message),
    }
}

fn copy_message(message: &ConversationMessage) -> (copy: ConversationMessage)
    ensures
        copy@ == message@,
{
    ConversationMessage {
        sender: message.sender.clone(),
        text: message.text.clone(),
        timestamp: message.timestamp,
        outgoing: message.outgoing,
        status: message.status.clone(),
        ciphertext: message.ciphertext.clone(),
    }
}

fn append_messages(target: &mut Vec<ConversationMessage>, source: &Vec<ConversationMessage>)
    ensures
        message_views(final(target)@) == message_views(old(target)@) + message_views(source@),
{
    let mut index: usize = 0;
    let ghost all = message_views(source@);
    let ghost start = message_views(target@);
    assert(start =~= start + all.take(0));
    while index < source.len()
        invariant
            index <= source@.len(),
            all == message_views(source@),
            message_views(target@) == start + all.take(index as int),
        decreases source@.len() - index,
    {
        let ghost before = target@;
        target.push(copy_message(&source[index]));
        assert(message_views(target@) =~= message_views(before).push(all[index as int]));
        assert(message_views(target@) =~= start + all.take(index + 1));
        index += 1;
    }
    assert(all.take(index as int) =~= all);
}

impl UiState {
    /// What is shown before anything has happened.
    pub fn from_profiles(profiles: Vec<String>) -> (state: UiState)
        ensures
            state@ == initial_view(text::views(profiles@)),
    {
        let selected = if profiles.len() > 0 {
            profiles[0].clone()
        } else {
            String::new()
        };
        let exists = !selected.as_str().is_empty();
        let state = UiState {
            language: "en".to_owned(),
            status: "Ready".to_owned(),
            profile_exists: exists,
            creating_profile: !exists,
            profile_name: selected.clone(),
            selected_profile: selected,
            profiles,
            profile_ready: false,
            fingerprint: String::new(),
            public_bundle: String::new(),
            contact_name: String::new(),
            contact_bundle: String::new(),
            contact_added: false,
            conversation_selected: false,
            chat_loading: false,
            history_loading: false,
            loading_text: "Decrypting chat history…".to_owned(),
            messages: Vec::new(),
            selected_transport: TransportKind::CopyPaste,
            new_chat_open: false,
            profile_info_open: false,
            history_cursor: 0,
            history_has_more: false,
            scroll_to_latest: false,
            scroll_generation: 0,
        };
        assert(message_views(state.messages@) =~= Seq::empty());
        state
    }

    /// Shows that a command is being worked on.
    pub fn prepare(&mut self, command: &Command)
        ensures
            final(self)@ == prepared(old(self)@, *command),
    {
        match command {
            Command::Initialize { .. } => {
                self.status = "Unlocking encrypted profile…".to_owned();
            },
            Command::VerifyContact { .. } => {
                self.status = "Verifying contact…".to_owned();
            },
            Command::LoadHistory { .. } => self.open_conversation(),
            Command::Poll { .. } => self.open_conversation(),
            Command::LoadOlderHistory { .. } => {
                self.chat_loading = true;
                self.history_loading = true;
                self.loading_text = "Decrypting chat history…".to_owned();
                self.status = "Conversation selected.".to_owned();
            },
            Command::Send { .. } => {
                self.chat_loading = true;
                self.history_loading = false;
                self.loading_text = "Encrypting and sending…".to_owned();
                self.status = "Encrypting and sending…".to_owned();
            },
            Command::ReceivePasted { .. } => {
                self.chat_loading = true;
                self.history_loading = false;
                self.loading_text = "Decrypting pasted message…".to_owned();
                self.status = "Decrypting pasted message…".to_owned();
            },
        }
    }

    fn open_conversation(&mut self)
        ensures
            final(self)@ == opened(old(self)@),
    {
        self.new_chat_open = false;
        self.conversation_selected = true;
        self.chat_loading = true;
        self.history_loading = true;
        self.loading_text = "Decrypting chat history…".to_owned();
        self.status = "Conversation selected.".to_owned();
    }

    /// Shows what an event says.
    pub fn apply(&mut self, event: &Event)
        ensures
            final(self)@ == applied(old(self)@, event@),
    {
        match event {
            Event::ProfileReady { profile, fingerprint, bundle, contact } => {
                self.apply_profile(profile, fingerprint, bundle, contact);
            },
            Event::ContactAdded { name, bundle, status } => {
                self.apply_contact(name, bundle, status);
            },
            Event::ChatUpdated { messages, status, history_cursor, has_more, prepend } => {
                self.apply_chat(messages, status, *history_cursor, *has_more, *prepend);
            },
            Event::Error { operation, message } => {
                self.apply_error(*operation, message);
            },
        }
    }

    fn apply_profile(
        &mut self,
        profile: &String,
        fingerprint: &String,
        bundle: &String,
        contact: &Option<(String, String)>,
    )
        ensures
            final(self)@ == profile_shown(
                old(self)@,
                profile@,
                fingerprint@,
                bundle@,
                match *contact {
                    Some((name, bundle)) => Some((name@, bundle@)),
                    None => None,
                },
            ),
    {
        self.profile_name = profile.clone();
        self.selected_profile = profile.clone();
        self.profile_exists = true;
        self.profile_ready = true;
        self.fingerprint = fingerprint.clone();
        self.public_bundle = bundle.clone();
        if let Some(known) = contact {
            self.contact_name = known.0.clone();
            self.contact_bundle = known.1.clone();
            self.contact_added = true;
        }
        self.status =
        "Profile ready. Verify fingerprints through a separate trusted channel.".to_owned();
    }

    fn apply_contact(&mut self, name: &String, bundle: &String, status: &String)
        ensures
            final(self)@ == contact_shown(old(self)@, name@, bundle@, status@),
    {
        self.contact_name = name.clone();
        self.contact_bundle = bundle.clone();
        self.contact_added = true;
        self.conversation_selected = false;
        self.chat_loading = false;
        self.history_loading = false;
        self.new_chat_open = false;
        self.status = status.clone();
    }

    fn apply_chat(
        &mut self,
        messages: &Vec<ConversationMessage>,
        status: &String,
        history_cursor: usize,
        has_more: bool,
        prepend: bool,
    )
        ensures
            final(self)@ == chat_shown(
                old(self)@,
                message_views(messages@),
                status@,
                history_cursor,
                has_more,
                prepend,
            ),
    {
        let mut combined: Vec<ConversationMessage> = Vec::new();
        append_messages(&mut combined, messages);
        assert(message_views(combined@) =~= message_views(messages@));
        if prepend {
            append_messages(&mut combined, &self.messages);
        }
        self.messages = combined;
        self.history_cursor = history_cursor;
        self.history_has_more = has_more;
        self.scroll_to_latest = !prepend;
        if !prepend {
            self.scroll_generation = if self.scroll_generation == i32::MAX {
                i32::MIN
            } else {
                self.scroll_generation + 1
            };
        }
        self.chat_loading = false;
        self.history_loading = false;
        self.status = status.clone();
    }

    fn apply_error(&mut self, operation: Operation, message: &String)
        ensures
            final(self)@ == error_shown(old(self)@, operation, message@),
    {
        self.chat_loading = false;
        self.history_loading = false;
        let mut status = operation.text().to_owned();
        status.append(" failed: ");
        status.append(message.as_str());
        self.status = status;
    }

    /// Selects a transport.
    pub fn select_transport(&mut self, transport: TransportKind)
        ensures
            final(self)@ == (UiView {
                selected_transport: transport,
                status: "Selected transport: "@ + transport_name(transport),
                ..old(self)@
            }),
    {
        self.selected_transport = transport;
        let mut status = "Selected transport: ".to_owned();
        status.append(transport.text());
        self.status = status;
    }

    /// Returns to the already-loaded conversation without starting another history
    /// operation.
    pub fn return_to_existing_chat(&mut self)
        ensures
            final(self)@ == (UiView {
                new_chat_open: false,
                conversation_selected: true,
                ..old(self)@
            }),
    {
        self.new_chat_open = false;
        self.conversation_selected = true;
    }
}

/// No event but a ready profile leaves the client loading.
pub proof fn law_results_end_loading(v: UiView, event: EventView)
    requires
        !(event is ProfileReady),
    ensures
        !applied(v, event).chat_loading,
        !applied(v, event).history_loading,
{
}

/// Older messages go in front of those that are shown, which stay as they are and
/// where they are.
pub proof fn law_older_messages_are_prepended(
    v: UiView,
    messages: Seq<MessageView>,
    status: Seq<char>,
    history_cursor: usize,
    has_more: bool,
)
    ensures
        ({
            let after = applied(
                v,
                EventView::ChatUpdated { messages, status, history_cursor, has_more, prepend: true },
            );
            &&& after.messages.len() == messages.len() + v.messages.len()
            &&& after.messages.skip(messages.len() as int) == v.messages
            &&& after.messages.take(messages.len() as int) == messages
            &&& after.scroll_generation == v.scroll_generation
        }),
{
    let after = messages + v.messages;
    assert(after.skip(messages.len() as int) =~= v.messages);
    assert(after.take(messages.len() as int) =~= messages);
}

/// Returning to a loaded chat twice is returning once.
pub proof fn law_return_is_idempotent(v: UiView)
    ensures
        ({
            let once = UiView { new_chat_open: false, conversation_selected: true, ..v };
            (UiView { new_chat_open: false, conversation_selected: true, ..once }) == once
        }),
{
}

// ---------------------------------------------------------------------------
// What is shown, and what stays
// ---------------------------------------------------------------------------

/// Entries are shown one for one and in their order. Each keeps its text, time, status
/// and ciphertext, and is outgoing, under the name "You", exactly where this side wrote
/// it.
pub proof fn law_entries_are_shown_as_they_are(entries: Seq<EntryView>, i: int)
    requires
        0 <= i < entries.len(),
    ensures
        rendered_all(entries).len() == entries.len(),
        rendered_all(entries)[i].text == entries[i].text,
        rendered_all(entries)[i].timestamp == entries[i].timestamp,
        rendered_all(entries)[i].status == entries[i].delivery_status,
        rendered_all(entries)[i].ciphertext == entries[i].ciphertext,
        rendered_all(entries)[i].outgoing <==> entries[i].sender == "you"@,
        rendered_all(entries)[i].outgoing ==> rendered_all(entries)[i].sender == "You"@,
        !rendered_all(entries)[i].outgoing ==> rendered_all(entries)[i].sender == entries[i].sender,
{
}

/// Whether two states have the same profile, contact and transport.
pub open spec fn same_profile_and_contact(left: UiView, right: UiView) -> bool {
    &&& left.language == right.language
    &&& left.profiles == right.profiles
    &&& left.profile_name == right.profile_name
    &&& left.selected_profile == right.selected_profile
    &&& left.profile_exists == right.profile_exists
    &&& left.creating_profile == right.creating_profile
    &&& left.profile_ready == right.profile_ready
    &&& left.fingerprint == right.fingerprint
    &&& left.public_bundle == right.public_bundle
    &&& left.contact_name == right.contact_name
    &&& left.contact_bundle == right.contact_bundle
    &&& left.contact_added == right.contact_added
    &&& left.selected_transport == right.selected_transport
    &&& left.profile_info_open == right.profile_info_open
}

/// Whether two states show the same messages at the same place.
pub open spec fn same_messages(left: UiView, right: UiView) -> bool {
    &&& left.messages == right.messages
    &&& left.history_cursor == right.history_cursor
    &&& left.history_has_more == right.history_has_more
    &&& left.scroll_to_latest == right.scroll_to_latest
    &&& left.scroll_generation == right.scroll_generation
}

/// A command that begins changes neither the profile, the contact nor the messages. It
/// is loading exactly where it is about a conversation, and history is loading where it
/// asks for some. A conversation that is opened is the one that is selected.
pub proof fn law_commands_begin_without_results(v: UiView, command: Command)
    ensures
        same_profile_and_contact(prepared(v, command), v),
        same_messages(prepared(v, command), v),
        prepared(v, command).chat_loading <==> v.chat_loading || !(command is Initialize || command
            is VerifyContact),
        command is LoadHistory || command is LoadOlderHistory || command is Poll ==> prepared(
            v,
            command,
        ).history_loading,
        command is Send || command is ReceivePasted ==> !prepared(v, command).history_loading,
        command is LoadHistory || command is Poll ==> prepared(v, command).conversation_selected
            && !prepared(v, command).new_chat_open,
        !(command is LoadHistory || command is Poll) ==> prepared(v, command).conversation_selected
            == v.conversation_selected && prepared(v, command).new_chat_open == v.new_chat_open,
{
}

/// A profile that is ready is shown with its own name, fingerprint and bundle, and with
/// the contact that was saved, where one was. No message changes.
pub proof fn law_ready_profile_is_shown(
    v: UiView,
    profile: Seq<char>,
    fingerprint: Seq<char>,
    bundle: Seq<char>,
    contact: Option<(Seq<char>, Seq<char>)>,
)
    ensures
        ({
            let after = applied(
                v,
                EventView::ProfileReady { profile, fingerprint, bundle, contact },
            );
            &&& after.profile_ready
            &&& after.profile_exists
            &&& after.profile_name == profile
            &&& after.selected_profile == profile
            &&& after.fingerprint == fingerprint
            &&& after.public_bundle == bundle
            &&& contact matches Some((name, saved)) ==> after.contact_name == name
                && after.contact_bundle == saved && after.contact_added
            &&& contact is None ==> after.contact_name == v.contact_name && after.contact_bundle
                == v.contact_bundle && after.contact_added == v.contact_added
            &&& same_messages(after, v)
            &&& after.selected_transport == v.selected_transport
            &&& after.profiles == v.profiles
        }),
{
}

/// A contact that was added is shown with its own name, bundle and status, and the place
/// to add one is closed. The profile and the messages stay.
pub proof fn law_added_contact_is_shown(
    v: UiView,
    name: Seq<char>,
    bundle: Seq<char>,
    status: Seq<char>,
)
    ensures
        ({
            let after = applied(v, EventView::ContactAdded { name, bundle, status });
            &&& after.contact_name == name
            &&& after.contact_bundle == bundle
            &&& after.contact_added
            &&& after.status == status
            &&& !after.new_chat_open
            &&& !after.conversation_selected
            &&& same_messages(after, v)
            &&& same_profile_and_contact(
                UiView {
                    contact_name: v.contact_name,
                    contact_bundle: v.contact_bundle,
                    contact_added: v.contact_added,
                    ..after
                },
                v,
            )
        }),
{
}

/// A conversation that was loaded takes the place of the messages that were shown, from
/// its own place on, and is scrolled to its end. Older messages go in front, and the view
/// stays where it is. The profile and the contact stay.
pub proof fn law_loaded_messages_are_shown(
    v: UiView,
    messages: Seq<MessageView>,
    status: Seq<char>,
    history_cursor: usize,
    has_more: bool,
    prepend: bool,
)
    ensures
        ({
            let after = applied(
                v,
                EventView::ChatUpdated { messages, status, history_cursor, has_more, prepend },
            );
            &&& !prepend ==> after.messages == messages
            &&& prepend ==> after.messages == messages + v.messages
            &&& after.history_cursor == history_cursor
            &&& after.history_has_more == has_more
            &&& after.status == status
            &&& after.scroll_to_latest == !prepend
            &&& prepend ==> after.scroll_generation == v.scroll_generation
            &&& !prepend ==> after.scroll_generation != v.scroll_generation
            &&& same_profile_and_contact(after, v)
            &&& after.conversation_selected == v.conversation_selected
        }),
{
}

/// An error says what failed and why, ends the loading, and changes nothing else.
pub proof fn law_error_is_all_that_is_shown(v: UiView, operation: Operation, message: Seq<char>)
    ensures
        ({
            let after = applied(v, EventView::Error { operation, message });
            &&& after.status == operation_name(operation) + " failed: "@ + message
            &&& !after.chat_loading
            &&& !after.history_loading
            &&& after == (UiView {
                status: after.status,
                chat_loading: false,
                history_loading: false,
                ..v
            })
        }),
{
}

/// What is shown first is the first profile, if there is one, and otherwise the place to
/// make one. Nothing is unlocked, and there is no contact and no message.
pub proof fn law_first_profile_is_offered(profiles: Seq<Seq<char>>)
    ensures
        initial_view(profiles).profiles == profiles,
        profiles.len() > 0 ==> initial_view(profiles).selected_profile == profiles[0]
            && initial_view(profiles).profile_name == profiles[0],
        profiles.len() == 0 ==> initial_view(profiles).creating_profile
            && !initial_view(profiles).profile_exists,
        profiles.len() > 0 && profiles[0].len() > 0 ==> !initial_view(profiles).creating_profile
            && initial_view(profiles).profile_exists,
        initial_view(profiles).history_cursor == 0,
        !initial_view(profiles).history_has_more,
        !initial_view(profiles).history_loading,
        !initial_view(profiles).new_chat_open,
        !initial_view(profiles).profile_info_open,
        !initial_view(profiles).scroll_to_latest,
        initial_view(profiles).scroll_generation == 0,
        initial_view(profiles).fingerprint.len() == 0,
        initial_view(profiles).public_bundle.len() == 0,
        initial_view(profiles).contact_name.len() == 0,
        initial_view(profiles).status == "Ready"@,
        !initial_view(profiles).profile_ready,
        !initial_view(profiles).contact_added,
        !initial_view(profiles).conversation_selected,
        !initial_view(profiles).chat_loading,
        initial_view(profiles).messages.len() == 0,
        initial_view(profiles).contact_bundle.len() == 0,
        initial_view(profiles).language == "en"@,
        initial_view(profiles).selected_transport == TransportKind::CopyPaste,
{
}

} // verus!
