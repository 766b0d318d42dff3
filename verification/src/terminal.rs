//! The terminal client: its commands, its private lobbies, and what it shows.
use vstd::prelude::*;
use vstd::utf8::*;

use crate::bundle::{BundleView, SignalPreKeyBundle};
use crate::chat;
use crate::chat::ChatEvent;
use crate::device::KeyMaintenanceStatus;
use crate::device_keys::KeyMaintenanceReport;
use crate::history;
use crate::history::{EntryView, HistoryEntry, HistoryFile, HistoryView, RelayConfig, PROFILE_VERSION};
use crate::primitives;
use crate::relay_enrollment;
use crate::relay_enrollment::assign_client_id;
use crate::rows;
use crate::signal;
use crate::signal::{MessageId, SafeChatMessage, SafeChatMessageView};
use crate::text;
use crate::text::{
    component_text, decimal_text, same_text, starts_with, strip_prefix, trim, utf8_lossy,
    utf8_string,
};
use crate::timestamps;
use crate::timestamps::format_timestamp_utc;
use crate::transport;
use crate::transport::envelope_text;

verus! {

// ---------------------------------------------------------------------------
// Commands
// ---------------------------------------------------------------------------

/// What a line asks for.
#[derive(Clone, Debug, PartialEq, Eq)]
pub enum TerminalCommand {
    /// It needs a private lobby, and there is none.
    NoLobby,
    SendUsage,
    Send(String),
    ReceiveUsage,
    Receive(String),
    Help,
    ShowTransport,
    UseCopyPaste,
    UseRelay,
    EditRelay,
    Compose,
    ReceivePrompt,
    ListPeers,
    AddPeer,
    RequestContact(String),
    ReviewContacts,
    Keys,
    ReplaceIdentity,
    AcceptRecovery,
    RevokeDevice,
    Use(String),
    ShowClean,
    ShowCipher,
    ShowBundle,
    ShowFingerprint,
    Quit,
    Nothing,
    Unknown(String),
}

/// The contents of a [`TerminalCommand`].
pub enum CommandView {
    NoLobby,
    SendUsage,
    Send(Seq<char>),
    ReceiveUsage,
    Receive(Seq<char>),
    Help,
    ShowTransport,
    UseCopyPaste,
    UseRelay,
    EditRelay,
    Compose,
    ReceivePrompt,
    ListPeers,
    AddPeer,
    RequestContact(Seq<char>),
    ReviewContacts,
    Keys,
    ReplaceIdentity,
    AcceptRecovery,
    RevokeDevice,
    Use(Seq<char>),
    ShowClean,
    ShowCipher,
    ShowBundle,
    ShowFingerprint,
    Quit,
    Nothing,
    Unknown(Seq<char>),
}

impl View for TerminalCommand {
    type V = CommandView;

    open spec fn view(&self) -> CommandView {
        match *self {
            TerminalCommand::NoLobby => CommandView::NoLobby,
            TerminalCommand::SendUsage => CommandView::SendUsage,
            TerminalCommand::Send(value) => CommandView::Send(value@),
            TerminalCommand::ReceiveUsage => CommandView::ReceiveUsage,
            TerminalCommand::Receive(value) => CommandView::Receive(value@),
            TerminalCommand::Help => CommandView::Help,
            TerminalCommand::ShowTransport => CommandView::ShowTransport,
            TerminalCommand::UseCopyPaste => CommandView::UseCopyPaste,
            TerminalCommand::UseRelay => CommandView::UseRelay,
            TerminalCommand::EditRelay => CommandView::EditRelay,
            TerminalCommand::Compose => CommandView::Compose,
            TerminalCommand::ReceivePrompt => CommandView::ReceivePrompt,
            TerminalCommand::ListPeers => CommandView::ListPeers,
            TerminalCommand::AddPeer => CommandView::AddPeer,
            TerminalCommand::RequestContact(value) => CommandView::RequestContact(value@),
            TerminalCommand::ReviewContacts => CommandView::ReviewContacts,
            TerminalCommand::Keys => CommandView::Keys,
            TerminalCommand::ReplaceIdentity => CommandView::ReplaceIdentity,
            TerminalCommand::AcceptRecovery => CommandView::AcceptRecovery,
            TerminalCommand::RevokeDevice => CommandView::RevokeDevice,
            TerminalCommand::Use(value) => CommandView::Use(value@),
            TerminalCommand::ShowClean => CommandView::ShowClean,
            TerminalCommand::ShowCipher => CommandView::ShowCipher,
            TerminalCommand::ShowBundle => CommandView::ShowBundle,
            TerminalCommand::ShowFingerprint => CommandView::ShowFingerprint,
            TerminalCommand::Quit => CommandView::Quit,
            TerminalCommand::Nothing => CommandView::Nothing,
            TerminalCommand::Unknown(value) => CommandView::Unknown(value@),
        }
    }
}

/// Whether a command speaks of the active private lobby.
pub open spec fn needs_lobby(command: Seq<char>) -> bool {
    text::opens_with(command, "/s "@) || text::opens_with(command, "/r "@) || text::opens_with(
        command,
        "/use "@,
    ) || command == "/r"@ || command == "/send"@ || command == "/receive"@ || command == "/clean"@
        || command == "/cipher"@
}

/// A text without the copies of a prefix that it opens with.
pub open spec fn without_start(value: Seq<char>, prefix: Seq<char>) -> Seq<char>
    decreases value.len(),
{
    if prefix.len() > 0 && text::opens_with(value, prefix) {
        without_start(value.skip(prefix.len() as int), prefix)
    } else {
        value
    }
}

/// The command of a word that stands alone.
pub open spec fn plain_command(command: Seq<char>) -> CommandView {
    if command == "/help"@ {
        CommandView::Help
    } else if command == "/transport"@ {
        CommandView::ShowTransport
    } else if command == "/transport copy"@ {
        CommandView::UseCopyPaste
    } else if command == "/transport relay"@ {
        CommandView::UseRelay
    } else if command == "/transport relay edit"@ {
        CommandView::EditRelay
    } else if command == "/send"@ {
        CommandView::Compose
    } else if command == "/r"@ || command == "/receive"@ {
        CommandView::ReceivePrompt
    } else if command == "/peers"@ {
        CommandView::ListPeers
    } else if command == "/add-peer"@ || command == "/add-contact"@ {
        CommandView::AddPeer
    } else {
        contact_command(command)
    }
}

/// The command of a line that is about contacts, keys or a device.
pub open spec fn contact_command(command: Seq<char>) -> CommandView {
    if text::opens_with(command, "/add-contact "@) {
        CommandView::RequestContact(text::trimmed(command.skip(13)))
    } else if command == "/contacts"@ {
        CommandView::ReviewContacts
    } else if command == "/keys"@ {
        CommandView::Keys
    } else if command == "/replace-identity"@ {
        CommandView::ReplaceIdentity
    } else if command == "/accept-recovery"@ {
        CommandView::AcceptRecovery
    } else if command == "/revoke-device"@ {
        CommandView::RevokeDevice
    } else if text::opens_with(command, "/use "@) {
        CommandView::Use(text::trimmed(without_start(command, "/use "@)))
    } else {
        shown_command(command)
    }
}

/// The command of a word that stands alone and shows something.
pub open spec fn shown_command(command: Seq<char>) -> CommandView {
    if command == "/clean"@ {
        CommandView::ShowClean
    } else if command == "/cipher"@ {
        CommandView::ShowCipher
    } else if command == "/bundle"@ {
        CommandView::ShowBundle
    } else if command == "/fingerprint"@ {
        CommandView::ShowFingerprint
    } else if command == "/quit"@ || command == "/exit"@ {
        CommandView::Quit
    } else if command.len() == 0 {
        CommandView::Nothing
    } else {
        CommandView::Unknown(command)
    }
}

/// The command in a line without white space around it.
pub open spec fn command_of(command: Seq<char>, relay: bool, any_peer: bool) -> CommandView {
    if !any_peer && needs_lobby(command) {
        CommandView::NoLobby
    } else if text::opens_with(command, "/s "@) {
        if text::trimmed(command.skip(3)).len() == 0 {
            CommandView::SendUsage
        } else {
            CommandView::Send(command.skip(3))
        }
    } else if text::opens_with(command, "/r "@) {
        if text::trimmed(command.skip(3)).len() == 0 {
            CommandView::ReceiveUsage
        } else {
            CommandView::Receive(command.skip(3))
        }
    } else if relay && command.len() > 0 && command[0] != '/' {
        CommandView::Send(command)
    } else {
        plain_command(command)
    }
}

/// What a line asks for.
pub open spec fn line_command(line: Seq<char>, relay: bool, any_peer: bool) -> CommandView {
    command_of(text::trimmed(line), relay, any_peer)
}

fn trim_start(value: &str, prefix: &str) -> (result: String)
    requires
        prefix@.len() > 0,
    ensures
        result@ == without_start(value@, prefix@),
{
    let mut rest = value.to_owned();
    loop
        invariant
            prefix@.len() > 0,
            without_start(value@, prefix@) == without_start(rest@, prefix@),
        ensures
            rest@ == without_start(value@, prefix@),
        decreases rest@.len(),
    {
        match strip_prefix(rest.as_str(), prefix) {
            Some(shorter) => {
                rest = shorter;
            },
            None => {
                break;
            },
        }
    }
    rest
}

fn lobby_needed(command: &str) -> (needed: bool)
    ensures
        needed == needs_lobby(command@),
{
    starts_with(command, "/s ") || starts_with(command, "/r ") || starts_with(command, "/use ")
        || same_text(command, "/r") || same_text(command, "/send") || same_text(command, "/receive")
        || same_text(command, "/clean") || same_text(command, "/cipher")
}

fn read_shown(command: &str) -> (result: TerminalCommand)
    ensures
        result@ == shown_command(command@),
{
    if same_text(command, "/clean") {
        TerminalCommand::ShowClean
    } else if same_text(command, "/cipher") {
        TerminalCommand::ShowCipher
    } else if same_text(command, "/bundle") {
        TerminalCommand::ShowBundle
    } else if same_text(command, "/fingerprint") {
        TerminalCommand::ShowFingerprint
    } else if same_text(command, "/quit") || same_text(command, "/exit") {
        TerminalCommand::Quit
    } else if command.is_empty() {
        TerminalCommand::Nothing
    } else {
        TerminalCommand::Unknown(command.to_owned())
    }
}

fn read_plain(command: &str) -> (result: TerminalCommand)
    ensures
        result@ == plain_command(command@),
{
    if same_text(command, "/help") {
        TerminalCommand::Help
    } else if same_text(command, "/transport") {
        TerminalCommand::ShowTransport
    } else if same_text(command, "/transport copy") {
        TerminalCommand::UseCopyPaste
    } else if same_text(command, "/transport relay") {
        TerminalCommand::UseRelay
    } else if same_text(command, "/transport relay edit") {
        TerminalCommand::EditRelay
    } else if same_text(command, "/send") {
        TerminalCommand::Compose
    } else if same_text(command, "/r") || same_text(command, "/receive") {
        TerminalCommand::ReceivePrompt
    } else if same_text(command, "/peers") {
        TerminalCommand::ListPeers
    } else if same_text(command, "/add-peer") || same_text(command, "/add-contact") {
        TerminalCommand::AddPeer
    } else {
        read_contact(command)
    }
}

fn read_contact(command: &str) -> (result: TerminalCommand)
    ensures
        result@ == contact_command(command@),
{
    if let Some(rest) = strip_prefix(command, "/add-contact ") {
        proof {
            reveal_strlit("/add-contact ");
        }
        TerminalCommand::RequestContact(trim(rest.as_str()))
    } else if same_text(command, "/contacts") {
        TerminalCommand::ReviewContacts
    } else if same_text(command, "/keys") {
        TerminalCommand::Keys
    } else if same_text(command, "/replace-identity") {
        TerminalCommand::ReplaceIdentity
    } else if same_text(command, "/accept-recovery") {
        TerminalCommand::AcceptRecovery
    } else if same_text(command, "/revoke-device") {
        TerminalCommand::RevokeDevice
    } else if starts_with(command, "/use ") {
        proof {
            reveal_strlit("/use ");
        }
        TerminalCommand::Use(trim(trim_start(command, "/use ").as_str()))
    } else {
        read_shown(command)
    }
}

/// Says what a line asks for.
pub fn parse_command(line: &str, relay: bool, any_peer: bool) -> (result: TerminalCommand)
    ensures
        result@ == line_command(line@, relay, any_peer),
{
    let command = trim(line);
    if !any_peer && lobby_needed(command.as_str()) {
        return TerminalCommand::NoLobby;
    }
    proof {
        reveal_strlit("/s ");
        reveal_strlit("/r ");
        reveal_strlit("/");
    }
    if let Some(message) = strip_prefix(command.as_str(), "/s ") {
        if trim(message.as_str()).as_str().is_empty() {
            return TerminalCommand::SendUsage;
        }
        return TerminalCommand::Send(message);
    }
    if let Some(ciphertext) = strip_prefix(command.as_str(), "/r ") {
        if trim(ciphertext.as_str()).as_str().is_empty() {
            return TerminalCommand::ReceiveUsage;
        }
        return TerminalCommand::Receive(ciphertext);
    }
    let slash = starts_with(command.as_str(), "/");
    proof {
        if command@.len() > 0 {
            assert("/"@ =~= seq!['/']);
            assert(command@.take(1) =~= seq![command@[0]]);
            assert(text::opens_with(command@, "/"@) == (command@[0] == '/')) by {
                if command@[0] == '/' {
                    assert(command@.take(1) =~= "/"@);
                } else if text::opens_with(command@, "/"@) {
                    assert(command@.take(1)[0] == "/"@[0]);
                }
            }
        }
    }
    if relay && !slash && !command.as_str().is_empty() {
        return TerminalCommand::Send(command);
    }
    read_plain(command.as_str())
}

/// Through the relay every line that is no command is sent as it is, and a command
/// is never sent.
pub proof fn law_relay_sends_plain_lines(line: Seq<char>, any_peer: bool)
    requires
        text::trimmed(line).len() > 0,
    ensures
        text::trimmed(line)[0] != '/' ==> line_command(line, true, any_peer) == CommandView::Send(
            text::trimmed(line),
        ),
        text::trimmed(line)[0] == '/' && !text::opens_with(text::trimmed(line), "/s "@)
            ==> !(line_command(line, true, any_peer) is Send),
{
    let command = text::trimmed(line);
    reveal_strlit("/s ");
    reveal_strlit("/r ");
    reveal_strlit("/use ");
    reveal_strlit("/r");
    reveal_strlit("/send");
    reveal_strlit("/receive");
    reveal_strlit("/clean");
    reveal_strlit("/cipher");
    if command[0] != '/' {
        assert(!text::opens_with(command, "/s "@)) by {
            if text::opens_with(command, "/s "@) {
                assert(command.take(3)[0] == command[0]);
            }
        }
        assert(!text::opens_with(command, "/r "@)) by {
            if text::opens_with(command, "/r "@) {
                assert(command.take(3)[0] == command[0]);
            }
        }
        assert(!text::opens_with(command, "/use "@)) by {
            if text::opens_with(command, "/use "@) {
                assert(command.take(5)[0] == command[0]);
            }
        }
    }
}

// ---------------------------------------------------------------------------
// Private lobbies
// ---------------------------------------------------------------------------

/// The private lobbies: every peer with its history, and which of them is active.
#[derive(Debug)]
pub struct Lobbies {
    pub peers: Vec<SignalPreKeyBundle>,
    pub histories: Vec<HistoryFile>,
    pub current: usize,
}

/// The contents of the [`Lobbies`].
#[verifier::ext_equal]
pub struct LobbiesView {
    pub peers: Seq<BundleView>,
    pub histories: Seq<HistoryView>,
    pub current: usize,
}

pub open spec fn peer_views(peers: Seq<SignalPreKeyBundle>) -> Seq<BundleView> {
    peers.map_values(|peer: SignalPreKeyBundle| peer@)
}

pub open spec fn history_views(histories: Seq<HistoryFile>) -> Seq<HistoryView> {
    histories.map_values(|history: HistoryFile| history@)
}

impl View for Lobbies {
    type V = LobbiesView;

    open spec fn view(&self) -> LobbiesView {
        LobbiesView {
            peers: peer_views(self.peers@),
            histories: history_views(self.histories@),
            current: self.current,
        }
    }
}

/// The address of a peer.
pub open spec fn address_of(peer: BundleView) -> Seq<char> {
    signal::address_text(peer.name, peer.device_id)
}

/// The peer with an address.
pub open spec fn has_address(address: Seq<char>) -> spec_fn(BundleView) -> bool {
    |peer: BundleView| address_of(peer) == address
}

/// The peer with a name or an address.
pub open spec fn is_called(selector: Seq<char>) -> spec_fn(BundleView) -> bool {
    |peer: BundleView| peer.name == selector || address_of(peer) == selector
}

/// The history of a lobby in which nothing was said.
pub open spec fn empty_history() -> HistoryView {
    HistoryView { version: PROFILE_VERSION, entries: Seq::empty(), transport_cursor: 0 }
}

/// The lobbies once a peer was added: its lobby is active, and where there was one
/// its history stays.
pub open spec fn with_peer(v: LobbiesView, peer: BundleView, history: HistoryView) -> LobbiesView {
    let index = rows::first_at(v.peers, has_address(address_of(peer)), 0);
    if index < v.peers.len() {
        LobbiesView { peers: v.peers.update(index, peer), current: index as usize, ..v }
    } else {
        LobbiesView {
            peers: v.peers.push(peer),
            histories: v.histories.push(history),
            current: v.peers.len() as usize,
        }
    }
}

/// The lobbies once a peer's new identity was accepted.
pub open spec fn with_recovered(v: LobbiesView, peer: BundleView) -> LobbiesView {
    let index = rows::first_at(v.peers, has_address(address_of(peer)), 0);
    if index < v.peers.len() {
        LobbiesView { peers: v.peers.update(index, peer), ..v }
    } else {
        LobbiesView {
            peers: v.peers.push(peer),
            histories: v.histories.push(empty_history()),
            ..v
        }
    }
}

/// The lobbies once the active peer was revoked.
pub open spec fn without_current(v: LobbiesView) -> LobbiesView {
    let peers = v.peers.remove(v.current as int);
    LobbiesView {
        peers,
        histories: v.histories.remove(v.current as int),
        current: if peers.len() == 0 {
            0
        } else if v.current >= peers.len() {
            (peers.len() - 1) as usize
        } else {
            v.current
        },
    }
}

/// The lobbies after one was asked for by the name or the address of its peer, and
/// whether it was found.
pub open spec fn selected(v: LobbiesView, selector: Seq<char>) -> (LobbiesView, bool) {
    let index = rows::first_at(v.peers, is_called(selector), 0);
    if index < v.peers.len() {
        (LobbiesView { current: index as usize, ..v }, true)
    } else {
        (v, false)
    }
}

impl Lobbies {
    /// Every peer has a history.
    pub open spec fn wf(self) -> bool {
        self.peers@.len() == self.histories@.len()
    }

    /// The lobbies of a profile that was just opened: the first is active.
    pub fn new(peers: Vec<SignalPreKeyBundle>, histories: Vec<HistoryFile>) -> (lobbies: Lobbies)
        requires
            peers@.len() == histories@.len(),
        ensures
            lobbies.wf(),
            lobbies@ == (LobbiesView {
                peers: peer_views(peers@),
                histories: history_views(histories@),
                current: 0,
            }),
    {
        Lobbies { peers, histories, current: 0 }
    }

    fn position(&self, address: &str) -> (index: usize)
        ensures
            index <= self.peers@.len(),
            index == rows::first_at(self@.peers, has_address(address@), 0),
    {
        let mut index: usize = 0;
        while index < self.peers.len()
            invariant
                index <= self.peers@.len(),
                rows::first_at(self@.peers, has_address(address@), 0) == rows::first_at(
                    self@.peers,
                    has_address(address@),
                    index as int,
                ),
            decreases self.peers@.len() - index,
        {
            assert(self@.peers[index as int] == self.peers@[index as int]@);
            if same_text(self.peers[index].address().as_str(), address) {
                return index;
            }
            index += 1;
        }
        index
    }

    /// Whether a peer has a lobby already.
    pub fn has_peer(&self, peer: &SignalPreKeyBundle) -> (known: bool)
        ensures
            known == (rows::first_at(self@.peers, has_address(address_of(peer@)), 0)
                < self@.peers.len()),
    {
        self.position(peer.address().as_str()) < self.peers.len()
    }

    /// Adds a peer, and makes its lobby active.
    pub fn add_peer(&mut self, peer: SignalPreKeyBundle, history: HistoryFile)
        requires
            old(self).wf(),
        ensures
            final(self).wf(),
            final(self)@ == with_peer(old(self)@, peer@, history@),
    {
        let index: usize = self.position(peer.address().as_str());
        let ghost v = self@;
        if index < self.peers.len() {
            self.peers.set(index, peer);
            self.current = index;
            assert(self@.peers =~= v.peers.update(index as int, peer@));
        } else {
            self.current = self.peers.len();
            self.peers.push(peer);
            self.histories.push(history);
            assert(self@.peers =~= v.peers.push(peer@));
            assert(self@.histories =~= v.histories.push(history@));
        }
    }

    /// Takes the new identity of a peer.
    pub fn accept_recovery(&mut self, peer: SignalPreKeyBundle)
        requires
            old(self).wf(),
        ensures
            final(self).wf(),
            final(self)@ == with_recovered(old(self)@, peer@),
    {
        let index: usize = self.position(peer.address().as_str());
        let ghost v = self@;
        if index < self.peers.len() {
            self.peers.set(index, peer);
            assert(self@.peers =~= v.peers.update(index as int, peer@));
        } else {
            self.peers.push(peer);
            let history = HistoryFile {
                version: PROFILE_VERSION,
                entries: Vec::new(),
                transport_cursor: 0,
            };
            assert(history@.entries =~= Seq::empty());
            self.histories.push(history);
            assert(self@.peers =~= v.peers.push(peer@));
            assert(self@.histories =~= v.histories.push(empty_history()));
        }
    }

    /// Forgets the active peer.
    pub fn revoke_current(&mut self)
        requires
            old(self).wf(),
            old(self).current < old(self).peers@.len(),
        ensures
            final(self).wf(),
            final(self)@ == without_current(old(self)@),
            final(self)@.peers.len() > 0 ==> final(self)@.current < final(self)@.peers.len(),
    {
        let ghost v = self@;
        self.peers.remove(self.current);
        self.histories.remove(self.current);
        assert(self@.peers =~= v.peers.remove(v.current as int));
        assert(self@.histories =~= v.histories.remove(v.current as int));
        if self.peers.len() == 0 {
            self.current = 0;
        } else if self.current >= self.peers.len() {
            self.current = self.peers.len() - 1;
        }
    }

    /// Makes the lobby of the peer with a name or an address active, if there is
    /// one.
    pub fn use_peer(&mut self, selector: &str) -> (found: bool)
        requires
            old(self).wf(),
        ensures
            final(self).wf(),
            ({
                let index = rows::first_at(old(self)@.peers, is_called(selector@), 0);
                &&& found == (index < old(self)@.peers.len())
                &&& final(self)@ == (if found {
                    LobbiesView { current: index as usize, ..old(self)@ }
                } else {
                    old(self)@
                })
            }),
            (final(self)@, found) == selected(old(self)@, selector@),
    {
        let mut index: usize = 0;
        while index < self.peers.len()
            invariant
                *self == *old(self),
                self.wf(),
                index <= self.peers@.len(),
                rows::first_at(self@.peers, is_called(selector@), 0) == rows::first_at(
                    self@.peers,
                    is_called(selector@),
                    index as int,
                ),
            decreases self.peers@.len() - index,
        {
            assert(self@.peers[index as int] == self.peers@[index as int]@);
            if same_text(self.peers[index].name.as_str(), selector) || same_text(
                self.peers[index].address().as_str(),
                selector,
            ) {
                self.current = index;
                return true;
            }
            index += 1;
        }
        false
    }

    /// Forgets every peer.
    pub fn clear(&mut self)
        requires
            old(self).wf(),
        ensures
            final(self).wf(),
            final(self)@ == (LobbiesView {
                peers: Seq::empty(),
                histories: Seq::empty(),
                current: old(self)@.current,
            }),
    {
        self.peers = Vec::new();
        self.histories = Vec::new();
        assert(self@.peers =~= Seq::empty());
        assert(self@.histories =~= Seq::empty());
    }
}

/// A peer that was added has the active lobby, and no other history is touched.
pub proof fn law_added_peer_is_active(v: LobbiesView, peer: BundleView, history: HistoryView)
    requires
        v.peers.len() == v.histories.len(),
        v.peers.len() < usize::MAX,
    ensures
        with_peer(v, peer, history).current < with_peer(v, peer, history).peers.len(),
        with_peer(v, peer, history).peers[with_peer(v, peer, history).current as int] == peer,
        forall|i: int|
            0 <= i < v.histories.len() ==> with_peer(v, peer, history).histories[i]
                == #[trigger] v.histories[i],
{
    rows::lemma_first_at(v.peers, has_address(address_of(peer)), 0);
}

/// Whether a later peer has the same address.
pub open spec fn replaced_later(peers: Seq<BundleView>, index: int) -> bool {
    exists|j: int|
        index < j < peers.len() && address_of(#[trigger] peers[j]) == address_of(peers[index])
}

/// The peers that count: of those with the same address the last.
pub open spec fn latest(peers: Seq<BundleView>, from: int) -> Seq<BundleView>
    decreases peers.len() - from,
{
    if from >= peers.len() {
        Seq::empty()
    } else if replaced_later(peers, from) {
        latest(peers, from + 1)
    } else {
        seq![peers[from]] + latest(peers, from + 1)
    }
}

/// Keeps the last of the peers with the same address.
pub fn keep_latest(peers: &Vec<SignalPreKeyBundle>) -> (result: Vec<SignalPreKeyBundle>)
    ensures
        peer_views(result@) == latest(peer_views(peers@), 0),
{
    let ghost all = peer_views(peers@);
    let mut result: Vec<SignalPreKeyBundle> = Vec::new();
    let mut index: usize = 0;
    assert(peer_views(result@) + latest(all, 0) =~= latest(all, 0));
    while index < peers.len()
        invariant
            index <= peers@.len(),
            all == peer_views(peers@),
            peer_views(result@) + latest(all, index as int) == latest(all, 0),
        decreases peers@.len() - index,
    {
        let address = peers[index].address();
        assert(all[index as int] == peers@[index as int]@);
        let mut replaced = false;
        let mut later: usize = index + 1;
        while later < peers.len()
            invariant
                index < later <= peers@.len(),
                all == peer_views(peers@),
                address@ == address_of(all[index as int]),
                replaced == exists|j: int|
                    index < j < later && address_of(#[trigger] all[j]) == address@,
            decreases peers@.len() - later,
        {
            assert(all[later as int] == peers@[later as int]@);
            if same_text(peers[later].address().as_str(), address.as_str()) {
                assert(address_of(all[later as int]) == address@);
                replaced = true;
            }
            later += 1;
        }
        assert(replaced == replaced_later(all, index as int));
        if !replaced {
            let ghost before = result@;
            result.push(peers[index].copy());
            assert(peer_views(result@) =~= peer_views(before).push(all[index as int]));
            assert(peer_views(result@) + latest(all, index + 1) =~= peer_views(before) + latest(
                all,
                index as int,
            ));
        }
        index += 1;
    }
    assert(peer_views(result@) + latest(all, index as int) =~= peer_views(result@));
    result
}

/// The file component of a peer.
pub fn peer_file_component(peer: &SignalPreKeyBundle) -> (component: String)
    ensures
        component@ == text::component(address_of(peer@)),
{
    component_text(peer.address().as_str())
}

/// Whether an entry of a history that all peers shared belongs to a peer. Entries
/// without one belong to the first.
pub open spec fn is_entry_of(peer: BundleView, first: bool) -> spec_fn(EntryView) -> bool {
    |entry: EntryView|
        (first && entry.peer.len() == 0) || entry.peer == peer.name || entry.peer == address_of(
            peer,
        )
}

/// The history that a shared one holds of a peer.
pub open spec fn entries_for(shared: HistoryView, peer: BundleView, first: bool) -> HistoryView {
    HistoryView {
        version: PROFILE_VERSION,
        entries: rows::kept(shared.entries, is_entry_of(peer, first)),
        transport_cursor: 0,
    }
}

/// The part of a shared history that belongs to a peer.
pub fn legacy_history(shared: &HistoryFile, peer: &SignalPreKeyBundle, first: bool) -> (history:
    HistoryFile)
    ensures
        history@ == (HistoryView {
            version: PROFILE_VERSION,
            entries: rows::kept(shared@.entries, is_entry_of(peer@, first)),
            transport_cursor: 0,
        }),
        history@ == entries_for(shared@, peer@, first),
{
    let ghost all = shared@.entries;
    let ghost keep = is_entry_of(peer@, first);
    let address = peer.address();
    let mut entries: Vec<HistoryEntry> = Vec::new();
    let mut index: usize = 0;
    assert(all.take(0) =~= Seq::empty());
    assert(history::entry_views(entries@) =~= rows::kept(all.take(0), keep));
    while index < shared.entries.len()
        invariant
            index <= shared.entries@.len(),
            all == history::entry_views(shared.entries@),
            keep == is_entry_of(peer@, first),
            address@ == address_of(peer@),
            history::entry_views(entries@) == rows::kept(all.take(index as int), keep),
        decreases shared.entries@.len() - index,
    {
        let entry = &shared.entries[index];
        assert(all[index as int] == entry@);
        assert(all.take(index + 1).drop_last() =~= all.take(index as int));
        assert(all.take(index + 1).last() == entry@);
        if (first && entry.peer.as_str().is_empty()) || same_text(
            entry.peer.as_str(),
            peer.name.as_str(),
        ) || same_text(entry.peer.as_str(), address.as_str()) {
            let ghost before = entries@;
            entries.push(entry.copy());
            assert(history::entry_views(entries@) =~= history::entry_views(before).push(entry@));
        }
        index += 1;
    }
    assert(all.take(index as int) =~= all);
    HistoryFile { version: PROFILE_VERSION, entries, transport_cursor: 0 }
}

// ---------------------------------------------------------------------------
// Messages by copy and paste
// ---------------------------------------------------------------------------

/// The entry of a message that was encrypted to be copied.
pub open spec fn copied_entry(
    now: u64,
    peer: BundleView,
    plaintext: Seq<u8>,
    message_id: Seq<u8>,
    envelope: Seq<u8>,
) -> EntryView {
    EntryView {
        timestamp: now,
        sender: "you"@,
        text: text::lossy_text(plaintext),
        message_id: text::hex(message_id),
        peer: address_of(peer),
        ciphertext: primitives::base64_url(envelope),
        delivery_status: Seq::empty(),
        transport_recipient: Seq::empty(),
    }
}

/// The entry of a message that was pasted.
pub open spec fn pasted_entry(
    now: u64,
    peer: BundleView,
    plaintext: Seq<char>,
    message_id: Seq<u8>,
    envelope: Seq<u8>,
) -> EntryView {
    EntryView {
        timestamp: now,
        sender: peer.name,
        text: plaintext,
        message_id: text::hex(message_id),
        peer: address_of(peer),
        ciphertext: primitives::base64_url(envelope),
        delivery_status: "received"@,
        transport_recipient: Seq::empty(),
    }
}

fn push_entry(history: &mut HistoryFile, entry: HistoryEntry)
    ensures
        final(history)@ == chat::with_entry(old(history)@, entry@),
{
    let ghost before = history.entries@;
    history.entries.push(entry);
    assert(history::entry_views(history.entries@) =~= history::entry_views(before).push(entry@));
}

/// Keeps a message that was encrypted to be copied, and gives its text.
pub fn send_envelope(
    history: &mut HistoryFile,
    now: u64,
    peer: &SignalPreKeyBundle,
    message_id: MessageId,
    plaintext: &[u8],
    envelope: &[u8],
) -> (ciphertext: String)
    ensures
        ciphertext@ == primitives::base64_url(envelope@),
        final(history)@ == chat::with_entry(
            old(history)@,
            copied_entry(now, peer@, plaintext@, message_id@, envelope@),
        ),
        valid_utf8(plaintext@) ==> final(history)@.entries.last().text == decode_utf8(plaintext@),
{
    let ciphertext = envelope_text(envelope);
    let entry = HistoryEntry::new(now, "you".to_owned(), utf8_lossy(plaintext)).with_message_id(
        message_id.encode(),
    ).with_peer(peer.address()).with_ciphertext(ciphertext.clone());
    push_entry(history, entry);
    ciphertext
}

/// What became of a message that was pasted.
#[derive(Clone, Debug, PartialEq, Eq)]
pub enum Pasted {
    /// It was kept.
    Kept { text: String },
    /// It is known already.
    Duplicate,
    /// It is no UTF-8 text.
    NotText,
}

/// A history after a message was pasted.
pub open spec fn pasted_into(
    h: HistoryView,
    now: u64,
    peer: BundleView,
    message: SafeChatMessageView,
    envelope: Seq<u8>,
) -> HistoryView {
    if chat::has_id(h.entries, text::hex(message.id)) || !valid_utf8(message.plaintext) {
        h
    } else {
        chat::with_entry(
            h,
            pasted_entry(now, peer, decode_utf8(message.plaintext), message.id, envelope),
        )
    }
}

/// Keeps a message that was pasted, unless it is known already.
pub fn receive_envelope(
    history: &mut HistoryFile,
    now: u64,
    peer: &SignalPreKeyBundle,
    message: SafeChatMessage,
    envelope: &[u8],
) -> (result: Pasted)
    ensures
        if chat::has_id(old(history)@.entries, text::hex(message@.id)) {
            result == Pasted::Duplicate && final(history)@ == old(history)@
        } else if valid_utf8(message@.plaintext) {
            &&& result matches Pasted::Kept { text } && text@ == decode_utf8(message@.plaintext)
            &&& final(history)@ == chat::with_entry(
                old(history)@,
                pasted_entry(
                    now,
                    peer@,
                    decode_utf8(message@.plaintext),
                    message@.id,
                    envelope@,
                ),
            )
        } else {
            result == Pasted::NotText && final(history)@ == old(history)@
        },
        final(history)@ == pasted_into(old(history)@, now, peer@, message@, envelope@),
{
    let id = message.id.encode();
    let mut index: usize = 0;
    while index < history.entries.len()
        invariant
            index <= history.entries@.len(),
            *history == *old(history),
            id@ == text::hex(message@.id),
            forall|i: int| 0 <= i < index ==> (#[trigger] history@.entries[i]).message_id != id@,
        decreases history.entries@.len() - index,
    {
        assert(history@.entries[index as int] == history.entries@[index as int]@);
        if same_text(history.entries[index].message_id.as_str(), id.as_str()) {
            assert(history@.entries[index as int].message_id == id@);
            return Pasted::Duplicate;
        }
        index += 1;
    }
    match utf8_string(message.plaintext) {
        None => Pasted::NotText,
        Some(text) => {
            let entry = HistoryEntry::new(now, peer.name.clone(), text.clone()).with_message_id(
                id,
            ).with_peer(peer.address()).with_ciphertext(
                envelope_text(envelope),
            ).with_delivery_status("received".to_owned());
            push_entry(history, entry);
            Pasted::Kept { text }
        },
    }
}

// ---------------------------------------------------------------------------
// The line editor
// ---------------------------------------------------------------------------

/// A key that was pressed.
#[derive(Clone, Copy, Debug, PartialEq, Eq)]
pub enum EditorKey {
    Character(char),
    Backspace,
    Enter,
    Interrupt,
    Escape,
    Other,
}

/// What the editor does about a key.
#[derive(Clone, Debug, PartialEq, Eq)]
pub enum EditorAction {
    /// Show a character.
    Show(char),
    /// Take the last character off the screen.
    Erase,
    /// The line is finished.
    Submit(String),
    /// Take the line off the screen.
    Clear,
    Nothing,
}

/// A line that is being written while messages come in.
#[derive(Debug)]
pub struct LineEditor {
    pub line: String,
}

/// The line after a key.
pub open spec fn edited(line: Seq<char>, key: EditorKey) -> Seq<char> {
    match key {
        EditorKey::Character(character) => line.push(character),
        EditorKey::Backspace => if line.len() > 0 {
            line.drop_last()
        } else {
            line
        },
        EditorKey::Escape => Seq::empty(),
        _ => line,
    }
}

impl LineEditor {
    pub fn new() -> (editor: LineEditor)
        ensures
            editor.line@ == Seq::<char>::empty(),
    {
        let editor = LineEditor { line: String::new() };
        assert(editor.line@ =~= Seq::empty());
        editor
    }

    /// Takes in a key. Interrupting the line quits.
    pub fn press(&mut self, key: EditorKey) -> (action: EditorAction)
        ensures
            final(self).line@ == edited(old(self).line@, key),
            match key {
                EditorKey::Character(character) => action == EditorAction::Show(character),
                EditorKey::Backspace => action == (if old(self).line@.len() > 0 {
                    EditorAction::Erase
                } else {
                    EditorAction::Nothing
                }),
                EditorKey::Enter => action matches EditorAction::Submit(line) && line@
                    == old(self).line@,
                EditorKey::Interrupt => action matches EditorAction::Submit(line) && line@
                    == "/quit"@,
                EditorKey::Escape => action == EditorAction::Clear,
                EditorKey::Other => action == EditorAction::Nothing,
            },
    {
        match key {
            EditorKey::Character(character) => {
                self.line.push(character);
                EditorAction::Show(character)
            },
            EditorKey::Backspace => {
                let all = text::characters(self.line.as_str());
                if all.len() == 0 {
                    return EditorAction::Nothing;
                }
                self.line = text::text_range(all.as_slice(), 0, all.len() - 1);
                assert(self.line@ =~= old(self).line@.drop_last());
                EditorAction::Erase
            },
            EditorKey::Enter => EditorAction::Submit(self.line.clone()),
            EditorKey::Interrupt => EditorAction::Submit("/quit".to_owned()),
            EditorKey::Escape => {
                self.line = String::new();
                assert(self.line@ =~= Seq::empty());
                EditorAction::Clear
            },
            EditorKey::Other => EditorAction::Nothing,
        }
    }
}

// ---------------------------------------------------------------------------
// What is shown
// ---------------------------------------------------------------------------

/// What is shown behind a message of a delivery status.
pub open spec fn status_label(status: Seq<char>) -> Seq<char> {
    if status == "sent"@ {
        " [sent]"@
    } else if status == "delivered"@ {
        " [delivered]"@
    } else if status == "read"@ {
        " [read]"@
    } else if status == "failed"@ {
        " [failed]"@
    } else {
        ""@
    }
}

/// What of a message is shown.
#[derive(Clone, Copy, Debug, PartialEq, Eq, Structural)]
pub enum HistoryMode {
    Ciphertext,
    Clean,
}

/// A line of a history, with the time of its message written out.
pub open spec fn history_line(entry: EntryView, timestamp: Seq<char>, mode: HistoryMode) -> Seq<
    char,
> {
    (if entry.sender == "you"@ {
        "  "@
    } else {
        ""@
    }) + "["@ + timestamp + "] "@ + entry.sender + ": "@ + (match mode {
        HistoryMode::Ciphertext => entry.ciphertext,
        HistoryMode::Clean => entry.text,
    }) + status_label(entry.delivery_status)
}

/// The time of a message as the terminal shows it.
pub open spec fn shown_time(timestamp: u64) -> Seq<char> {
    timestamps::utc_label(timestamps::utc_text(timestamps::signed(timestamp)))
}

/// The lines of a history.
pub open spec fn history_lines(entries: Seq<EntryView>, mode: HistoryMode) -> Seq<Seq<char>> {
    if entries.len() == 0 {
        seq!["No messages yet."@]
    } else {
        seq!["Chat history:"@] + entries.map_values(
            |entry: EntryView| history_line(entry, shown_time(entry.timestamp), mode),
        ) + seq![""@]
    }
}

fn label_of(status: &str) -> (label: &'static str)
    ensures
        label@ == status_label(status@),
{
    if same_text(status, "sent") {
        " [sent]"
    } else if same_text(status, "delivered") {
        " [delivered]"
    } else if same_text(status, "read") {
        " [read]"
    } else if same_text(status, "failed") {
        " [failed]"
    } else {
        ""
    }
}

/// Writes a line of a history.
pub fn write_history_line(entry: &HistoryEntry, timestamp: &str, mode: HistoryMode) -> (line: String)
    ensures
        line@ == history_line(entry@, timestamp@, mode),
{
    let mut line = if same_text(entry.sender.as_str(), "you") {
        "  ".to_owned()
    } else {
        "".to_owned()
    };
    line.append("[");
    line.append(timestamp);
    line.append("] ");
    line.append(entry.sender.as_str());
    line.append(": ");
    match mode {
        HistoryMode::Ciphertext => line.append(entry.ciphertext.as_str()),
        HistoryMode::Clean => line.append(entry.text.as_str()),
    }
    line.append(label_of(entry.delivery_status.as_str()));
    line
}

/// Writes a history.
pub fn show_history(history: &HistoryFile, mode: HistoryMode) -> (lines: Vec<String>)
    ensures
        text::views(lines@) == history_lines(history@.entries, mode),
{
    let ghost entries = history@.entries;
    let ghost body = entries.map_values(
        |entry: EntryView| history_line(entry, shown_time(entry.timestamp), mode),
    );
    let mut lines: Vec<String> = Vec::new();
    if history.entries.len() == 0 {
        lines.push("No messages yet.".to_owned());
        assert(text::views(lines@) =~= seq!["No messages yet."@]);
        return lines;
    }
    lines.push("Chat history:".to_owned());
    let mut index: usize = 0;
    assert(text::views(lines@) =~= seq!["Chat history:"@] + body.take(0));
    while index < history.entries.len()
        invariant
            index <= history.entries@.len(),
            entries == history::entry_views(history.entries@),
            body == entries.map_values(
                |entry: EntryView| history_line(entry, shown_time(entry.timestamp), mode),
            ),
            text::views(lines@) == seq!["Chat history:"@] + body.take(index as int),
        decreases history.entries@.len() - index,
    {
        let entry = &history.entries[index];
        assert(entries[index as int] == entry@);
        let timestamp = format_timestamp_utc(entry.timestamp);
        let ghost before = lines@;
        let line = write_history_line(entry, timestamp.as_str(), mode);
        lines.push(line);
        assert(text::views(lines@) =~= text::views(before).push(body[index as int]));
        assert(text::views(lines@) =~= seq!["Chat history:"@] + body.take(index + 1));
        index += 1;
    }
    let ghost before = lines@;
    lines.push("".to_owned());
    assert(body.take(index as int) =~= body);
    assert(text::views(lines@) =~= text::views(before).push(""@));
    assert(text::views(lines@) =~= seq!["Chat history:"@] + body + seq![""@]);
    lines
}

/// The line of something that happened, with its time written out.
pub open spec fn event_line(event: chat::EventView, timestamp: Seq<char>) -> Option<Seq<char>> {
    match event {
        chat::EventView::Sent { .. } => None,
        chat::EventView::Read { text, .. } => Some(
            "  ["@ + timestamp + "] you: "@ + text + " [read]"@,
        ),
        chat::EventView::Received { sender, text, .. } => Some(
            "["@ + timestamp + "] "@ + sender + ": "@ + text,
        ),
        chat::EventView::Stale { transport_id } => Some(
            "Discarding stale relay message "@ + transport_id + " after ratchet recovery."@,
        ),
    }
}

/// When something happened.
pub open spec fn event_time(event: chat::EventView) -> u64 {
    match event {
        chat::EventView::Sent { timestamp, .. } => timestamp,
        chat::EventView::Read { timestamp, .. } => timestamp,
        chat::EventView::Received { timestamp, .. } => timestamp,
        chat::EventView::Stale { .. } => 0,
    }
}

/// Writes the line of something that happened while messages were fetched.
pub fn write_event_line(event: &ChatEvent, timestamp: &str) -> (line: Option<String>)
    ensures
        match event_line(event@, timestamp@) {
            Some(value) => line matches Some(found) && found@ == value,
            None => line is None,
        },
{
    match event {
        ChatEvent::Sent { .. } => None,
        ChatEvent::Read { timestamp: _, text } => {
            let mut line = "  [".to_owned();
            line.append(timestamp);
            line.append("] you: ");
            line.append(text.as_str());
            line.append(" [read]");
            Some(line)
        },
        ChatEvent::Received { timestamp: _, sender, text } => {
            let mut line = "[".to_owned();
            line.append(timestamp);
            line.append("] ");
            line.append(sender.as_str());
            line.append(": ");
            line.append(text.as_str());
            Some(line)
        },
        ChatEvent::Stale { transport_id } => {
            let mut line = "Discarding stale relay message ".to_owned();
            line.append(transport_id.as_str());
            line.append(" after ratchet recovery.");
            Some(line)
        },
    }
}

/// Writes the line of something that happened, with its time.
pub fn show_event(event: &ChatEvent) -> (line: Option<String>)
    ensures
        match event_line(event@, shown_time(event_time(event@))) {
            Some(value) => line matches Some(found) && found@ == value,
            None => line is None,
        },
{
    let timestamp: u64 = match event {
        ChatEvent::Sent { timestamp, .. } => *timestamp,
        ChatEvent::Read { timestamp, .. } => *timestamp,
        ChatEvent::Received { timestamp, .. } => *timestamp,
        ChatEvent::Stale { .. } => 0,
    };
    let shown = format_timestamp_utc(timestamp);
    write_event_line(event, shown.as_str())
}

/// The line of a peer.
pub open spec fn peer_line(peer: BundleView, active: bool) -> Seq<char> {
    (if active {
        "*"@
    } else {
        " "@
    }) + " "@ + peer.name + " ("@ + address_of(peer) + ")\nfingerprint: "@ + text::hex(
        peer.identity_key,
    )
}

/// Writes the line of a peer.
pub fn write_peer_line(peer: &SignalPreKeyBundle, active: bool) -> (line: String)
    ensures
        line@ == peer_line(peer@, active),
{
    let mut line = if active {
        "*".to_owned()
    } else {
        " ".to_owned()
    };
    line.append(" ");
    line.append(peer.name.as_str());
    line.append(" (");
    line.append(peer.address().as_str());
    line.append(")\nfingerprint: ");
    line.append(peer.fingerprint().as_str());
    line
}

/// Lists the private lobbies.
pub fn list_peers(lobbies: &Lobbies) -> (lines: Vec<String>)
    ensures
        text::views(lines@) == seq!["Private lobbies:"@] + Seq::new(
            lobbies@.peers.len(),
            |i: int| peer_line(lobbies@.peers[i], i == lobbies@.current),
        ),
{
    let ghost body = Seq::new(
        lobbies@.peers.len(),
        |i: int| peer_line(lobbies@.peers[i], i == lobbies@.current),
    );
    let mut lines: Vec<String> = Vec::new();
    lines.push("Private lobbies:".to_owned());
    let mut index: usize = 0;
    assert(text::views(lines@) =~= seq!["Private lobbies:"@] + body.take(0));
    while index < lobbies.peers.len()
        invariant
            index <= lobbies.peers@.len(),
            body == Seq::new(
                lobbies@.peers.len(),
                |i: int| peer_line(lobbies@.peers[i], i == lobbies@.current),
            ),
            text::views(lines@) == seq!["Private lobbies:"@] + body.take(index as int),
        decreases lobbies.peers@.len() - index,
    {
        assert(lobbies@.peers[index as int] == lobbies.peers@[index as int]@);
        let ghost before = lines@;
        lines.push(write_peer_line(&lobbies.peers[index], index == lobbies.current));
        assert(text::views(lines@) =~= text::views(before).push(body[index as int]));
        assert(text::views(lines@) =~= seq!["Private lobbies:"@] + body.take(index + 1));
        index += 1;
    }
    assert(body.take(index as int) =~= body);
    lines
}

/// The line of the key inventory.
pub open spec fn inventory_line(report: KeyMaintenanceReport) -> Seq<char> {
    "Key inventory: "@ + text::decimal(report.one_time_prekeys as nat) + " one-time prekeys, "@
        + text::decimal(report.signed_prekeys as nat) + " signed prekeys"@ + (
    if report.replenished {
        "; replenished"@
    } else {
        ""@
    }) + (if report.rotated {
        "; signed prekey rotated"@
    } else {
        ""@
    })
}

/// Writes the line of the key inventory.
pub fn write_inventory_line(report: &KeyMaintenanceReport) -> (line: String)
    ensures
        line@ == inventory_line(*report),
{
    let mut line = "Key inventory: ".to_owned();
    line.append(decimal_text(report.one_time_prekeys as u64).as_str());
    line.append(" one-time prekeys, ");
    line.append(decimal_text(report.signed_prekeys as u64).as_str());
    line.append(" signed prekeys");
    line.append(
        if report.replenished {
            "; replenished"
        } else {
            ""
        },
    );
    line.append(
        if report.rotated {
            "; signed prekey rotated"
        } else {
            ""
        },
    );
    line
}

/// The line of maintenance failures, or the alert after one.
pub open spec fn failures_line(status: KeyMaintenanceStatus, alert: bool) -> Seq<char> {
    let total = text::decimal(status.total_failures as nat);
    let consecutive = text::decimal(status.consecutive_failures as nat);
    if alert {
        "ALERT: "@ + consecutive + " consecutive maintenance failures ("@ + total + " total)"@
    } else {
        "Maintenance failures: "@ + total + " total, "@ + consecutive + " consecutive"@
    }
}

/// Writes the line of maintenance failures, or the alert after one.
pub fn write_failures_line(status: &KeyMaintenanceStatus, alert: bool) -> (line: String)
    ensures
        line@ == failures_line(*status, alert),
{
    let total = decimal_text(status.total_failures);
    let consecutive = decimal_text(status.consecutive_failures as u64);
    if alert {
        let mut line = "ALERT: ".to_owned();
        line.append(consecutive.as_str());
        line.append(" consecutive maintenance failures (");
        line.append(total.as_str());
        line.append(" total)");
        line
    } else {
        let mut line = "Maintenance failures: ".to_owned();
        line.append(total.as_str());
        line.append(" total, ");
        line.append(consecutive.as_str());
        line.append(" consecutive");
        line
    }
}

// ---------------------------------------------------------------------------
// Settings
// ---------------------------------------------------------------------------

/// Whether a user has to confirm that a relay is reached without encryption: its
/// URL says so, and it is not the one that was confirmed before.
pub open spec fn confirmation_needed(base_url: Seq<char>, saved: Option<(Seq<char>, bool)>) -> bool {
    text::opens_with(base_url, "http://"@) && (match saved {
        None => true,
        Some((saved_url, allowed)) => saved_url != base_url || !allowed,
    })
}

/// Whether a user has to confirm that a relay is reached without encryption.
pub fn needs_confirmation(base_url: &str, saved: Option<&RelayConfig>) -> (needed: bool)
    ensures
        needed == confirmation_needed(
            base_url@,
            match saved {
                Some(config) => Some((config.base_url@, config.allow_insecure_http)),
                None => None,
            },
        ),
{
    if !starts_with(base_url, "http://") {
        return false;
    }
    match saved {
        None => true,
        Some(config) => !same_text(config.base_url.as_str(), base_url)
            || !config.allow_insecure_http,
    }
}

/// The ID under which a client enrolls: the one that it was given, or the one that
/// comes from its identity.
pub fn relay_client_id(given: &str, identity: &[u8]) -> (client_id: String)
    ensures
        client_id@ == (if given@.len() == 0 {
            relay_enrollment::assigned_id(identity@)
        } else {
            given@
        }),
{
    if given.is_empty() {
        assign_client_id(identity)
    } else {
        given.to_owned()
    }
}

/// Whether the operator is asked for a CA certificate: where none was given, no relay is
/// saved and the relay is not reached by HTTP.
pub fn asks_for_certificate(base_url: &str, given: bool, saved: bool) -> (asks: bool)
    ensures
        asks == (!given && !saved && !text::opens_with(base_url@, "http://"@)),
{
    !given && !saved && !starts_with(base_url, "http://")
}

/// Whether a pasted bundle may go on in the next lines.
pub fn bundle_continues(first_line: &str) -> (continues: bool)
    ensures
        continues == !text::opens_with(text::trimmed(first_line@), "safechat-bundle-v1:"@),
{
    !starts_with(trim(first_line).as_str(), "safechat-bundle-v1:")
}

/// Whether a line ends a pasted bundle.
pub fn bundle_ends(line: &str) -> (ends: bool)
    ensures
        ends == (text::trimmed(line@) == "END"@),
{
    same_text(trim(line).as_str(), "END")
}

// ---------------------------------------------------------------------------
// What lines, lobbies and entries come to
// ---------------------------------------------------------------------------

/// A line that opens with `/s ` sends what stands behind it, and one that opens with
/// `/r ` receives it. Where that is blank, the usage is shown, and without a lobby
/// neither is done.
pub proof fn law_short_commands(line: Seq<char>, body: Seq<char>, relay: bool, any_peer: bool)
    ensures
        text::trimmed(line) == "/s "@ + body ==> line_command(line, relay, any_peer) == (
        if !any_peer {
            CommandView::NoLobby
        } else if text::trimmed(body).len() == 0 {
            CommandView::SendUsage
        } else {
            CommandView::Send(body)
        }),
        text::trimmed(line) == "/r "@ + body ==> line_command(line, relay, any_peer) == (
        if !any_peer {
            CommandView::NoLobby
        } else if text::trimmed(body).len() == 0 {
            CommandView::ReceiveUsage
        } else {
            CommandView::Receive(body)
        }),
{
    reveal_strlit("/s ");
    reveal_strlit("/r ");
    let send = "/s "@ + body;
    let receive = "/r "@ + body;
    assert(send.take(3) =~= "/s "@);
    assert(send.skip(3) =~= body);
    assert(receive.take(3) =~= "/r "@);
    assert(receive.skip(3) =~= body);
    assert(receive.take(3)[1] == 'r');
    assert("/s "@[1] == 's');
}

/// A line that opens with `/add-contact ` asks for the contact that stands behind it.
pub proof fn law_contact_is_asked_for(line: Seq<char>, name: Seq<char>, relay: bool, any_peer: bool)
    requires
        text::trimmed(line) == "/add-contact "@ + name,
    ensures
        line_command(line, relay, any_peer) == CommandView::RequestContact(text::trimmed(name)),
{
    let command = "/add-contact "@ + name;
    reveal_strlit("/add-contact ");
    reveal_strlit("/add-contact");
    reveal_strlit("/add-peer");
    reveal_strlit("/s ");
    reveal_strlit("/r ");
    reveal_strlit("/use ");
    reveal_strlit("/r");
    reveal_strlit("/send");
    reveal_strlit("/receive");
    reveal_strlit("/clean");
    reveal_strlit("/cipher");
    reveal_strlit("/help");
    reveal_strlit("/transport");
    reveal_strlit("/transport copy");
    reveal_strlit("/transport relay");
    reveal_strlit("/transport relay edit");
    reveal_strlit("/peers");
    assert(command[0] == '/' && command[1] == 'a' && command[2] == 'd' && command[4] == '-');
    assert(command.take(13) =~= "/add-contact "@);
    assert(command.skip(13) =~= name);
    assert(command.len() >= 13);
    assert(command.take(3)[1] == 'a');
    assert(command.take(5)[1] == 'a');
    assert("/s "@[1] == 's' && "/r "@[1] == 'r' && "/use "@[1] == 'u');
    assert("/r"@.len() == 2 && "/send"@[1] == 's' && "/receive"@[1] == 'r' && "/clean"@[1] == 'c'
        && "/cipher"@[1] == 'c' && "/help"@[1] == 'h' && "/transport"@[1] == 't'
        && "/transport copy"@[1] == 't' && "/transport relay"@[1] == 't'
        && "/transport relay edit"@[1] == 't' && "/peers"@[1] == 'p');
    assert("/add-peer"@.len() == 9 && "/add-contact"@.len() == 12);
}

/// A prefix that is taken off as often as it stands there does not stand there any
/// more, and what is left is the end of the text.
pub proof fn law_prefix_is_taken_off(value: Seq<char>, prefix: Seq<char>)
    requires
        prefix.len() > 0,
    ensures
        !text::opens_with(without_start(value, prefix), prefix),
        without_start(value, prefix).len() <= value.len(),
        without_start(value, prefix) == value.skip(
            value.len() - without_start(value, prefix).len(),
        ),
        !text::opens_with(value, prefix) ==> without_start(value, prefix) == value,
        without_start(prefix + value, prefix) == without_start(value, prefix),
    decreases value.len(),
{
    let all = prefix + value;
    assert(all.take(prefix.len() as int) =~= prefix);
    assert(all.skip(prefix.len() as int) =~= value);
    if text::opens_with(value, prefix) {
        let rest = value.skip(prefix.len() as int);
        law_prefix_is_taken_off(rest, prefix);
        assert(without_start(value, prefix) =~= value.skip(
            value.len() - without_start(value, prefix).len(),
        ));
    } else {
        assert(value.skip(0) =~= value);
    }
}

/// Whether a peer is the first with an address.
pub open spec fn first_at_address(peers: Seq<BundleView>, address: Seq<char>, index: int) -> bool {
    &&& 0 <= index < peers.len()
    &&& signal::address_text(peers[index].name, peers[index].device_id) == address
    &&& forall|i: int|
        0 <= i < index ==> signal::address_text(
            (#[trigger] peers[i]).name,
            peers[i].device_id,
        ) != address
}

/// Whether no peer has an address.
pub open spec fn none_at_address(peers: Seq<BundleView>, address: Seq<char>) -> bool {
    forall|i: int|
        0 <= i < peers.len() ==> signal::address_text(
            (#[trigger] peers[i]).name,
            peers[i].device_id,
        ) != address
}

/// A peer that is known keeps its place and its history, and is current with its new
/// bundle. One that is not known comes last, with the history that is given, and is
/// current. Every other peer keeps its bundle, its place and its history.
pub proof fn law_added_peer_keeps_the_others(
    v: LobbiesView,
    peer: BundleView,
    history: HistoryView,
    index: int,
)
    requires
        v.peers.len() == v.histories.len(),
        v.peers.len() < usize::MAX,
    ensures
        ({
            let address = signal::address_text(peer.name, peer.device_id);
            let after = with_peer(v, peer, history);
            &&& first_at_address(v.peers, address, index) ==> {
                &&& after.current == index
                &&& after.peers.len() == v.peers.len()
                &&& after.peers[index] == peer
                &&& forall|i: int|
                    0 <= i < v.peers.len() && i != index ==> #[trigger] after.peers[i] == v.peers[i]
                &&& after.histories == v.histories
            }
            &&& none_at_address(v.peers, address) ==> {
                &&& after.current == v.peers.len()
                &&& after.peers == v.peers.push(peer)
                &&& after.histories == v.histories.push(history)
            }
        }),
{
    let address = signal::address_text(peer.name, peer.device_id);
    lemma_peer_found(v.peers, address, index);
}

proof fn lemma_peer_found(peers: Seq<BundleView>, address: Seq<char>, index: int)
    ensures
        first_at_address(peers, address, index) ==> rows::first_at(peers, has_address(address), 0)
            == index,
        none_at_address(peers, address) ==> rows::first_at(peers, has_address(address), 0)
            == peers.len(),
{
    if first_at_address(peers, address, index) {
        rows::lemma_first_is(peers, has_address(address), index);
    }
    if none_at_address(peers, address) {
        rows::lemma_first_is(peers, has_address(address), peers.len() as int);
    }
}

/// A peer that recovered keeps its place and its history with its new bundle, and one
/// that is not known comes last with an empty history. The current lobby stays.
pub proof fn law_recovered_peer_keeps_its_history(v: LobbiesView, peer: BundleView, index: int)
    requires
        v.peers.len() == v.histories.len(),
    ensures
        ({
            let address = signal::address_text(peer.name, peer.device_id);
            let after = with_recovered(v, peer);
            &&& after.current == v.current
            &&& first_at_address(v.peers, address, index) ==> {
                &&& after.peers.len() == v.peers.len()
                &&& after.peers[index] == peer
                &&& forall|i: int|
                    0 <= i < v.peers.len() && i != index ==> #[trigger] after.peers[i] == v.peers[i]
                &&& after.histories == v.histories
            }
            &&& none_at_address(v.peers, address) ==> {
                &&& after.peers == v.peers.push(peer)
                &&& after.histories.len() == v.histories.len() + 1
                &&& after.histories.drop_last() == v.histories
                &&& after.histories.last().entries.len() == 0
                &&& after.histories.last().transport_cursor == 0
            }
        }),
{
    let address = signal::address_text(peer.name, peer.device_id);
    lemma_peer_found(v.peers, address, index);
    if none_at_address(v.peers, address) {
        assert(with_recovered(v, peer).histories.drop_last() =~= v.histories);
    }
}

/// Leaving the current lobby takes its peer and its history away, and no other. The
/// lobby that takes its place is current, or the last one where none does.
pub proof fn law_only_the_current_lobby_goes(v: LobbiesView)
    requires
        v.peers.len() == v.histories.len(),
        v.current < v.peers.len(),
    ensures
        ({
            let after = without_current(v);
            let gone = v.current as int;
            &&& after.peers.len() == v.peers.len() - 1
            &&& after.histories.len() == v.histories.len() - 1
            &&& forall|i: int|
                0 <= i < gone ==> #[trigger] after.peers[i] == v.peers[i]
            &&& forall|i: int|
                0 <= i < gone ==> #[trigger] after.histories[i] == v.histories[i]
            &&& forall|i: int|
                gone <= i < after.peers.len() ==> #[trigger] after.peers[i] == v.peers[i + 1]
            &&& forall|i: int|
                gone <= i < after.histories.len() ==> #[trigger] after.histories[i]
                    == v.histories[i + 1]
            &&& v.current < v.peers.len() - 1 ==> after.current == v.current
            &&& v.current == v.peers.len() - 1 && v.peers.len() > 1 ==> after.current
                == v.current - 1
            &&& v.peers.len() == 1 ==> after.current == 0
        }),
{
}

/// A lobby is chosen by the name or the address of its peer, the first that has it. No
/// lobby changes, and where none has it the current one stays.
pub proof fn law_lobby_is_chosen_by_its_peer(v: LobbiesView, selector: Seq<char>, index: int)
    requires
        v.peers.len() <= usize::MAX,
    ensures
        selected(v, selector).0.peers == v.peers,
        selected(v, selector).0.histories == v.histories,
        0 <= index < v.peers.len() && (v.peers[index].name == selector || signal::address_text(
            v.peers[index].name,
            v.peers[index].device_id,
        ) == selector) && (forall|i: int|
            0 <= i < index ==> (#[trigger] v.peers[i]).name != selector && signal::address_text(
                v.peers[i].name,
                v.peers[i].device_id,
            ) != selector) ==> selected(v, selector).1 && selected(v, selector).0.current == index,
        (forall|i: int|
            0 <= i < v.peers.len() ==> (#[trigger] v.peers[i]).name != selector
                && signal::address_text(v.peers[i].name, v.peers[i].device_id) != selector)
            ==> selected(v, selector) == (v, false),
{
    let wanted = is_called(selector);
    if 0 <= index < v.peers.len() && wanted(v.peers[index]) && (forall|i: int|
        0 <= i < index ==> (#[trigger] v.peers[i]).name != selector && signal::address_text(
            v.peers[i].name,
            v.peers[i].device_id,
        ) != selector) {
        rows::lemma_first_is(v.peers, wanted, index);
    }
    if forall|i: int|
        0 <= i < v.peers.len() ==> (#[trigger] v.peers[i]).name != selector && signal::address_text(
            v.peers[i].name,
            v.peers[i].device_id,
        ) != selector {
        rows::lemma_first_is(v.peers, wanted, v.peers.len() as int);
    }
}

/// Of bundles that are read one after the other, exactly the last one of each address is
/// kept, and those that are kept stay in their order.
pub proof fn law_last_bundle_of_each_peer_is_kept(peers: Seq<BundleView>) -> (at: Seq<int>)
    ensures
        rows::ascending(at, peers.len() as int),
        latest(peers, 0).len() == at.len(),
        forall|k: int| 0 <= k < at.len() ==> latest(peers, 0)[k] == peers[#[trigger] at[k]],
        forall|j: int|
            0 <= j < peers.len() ==> (#[trigger] at.contains(j) <==> forall|later: int|
                j < later < peers.len() ==> signal::address_text(
                    (#[trigger] peers[later]).name,
                    peers[later].device_id,
                ) != signal::address_text(peers[j].name, peers[j].device_id)),
{
    let at = lemma_latest(peers, 0);
    assert forall|j: int| 0 <= j < peers.len() implies (#[trigger] at.contains(j) <==> forall|
        later: int,
    |
        j < later < peers.len() ==> signal::address_text(
            (#[trigger] peers[later]).name,
            peers[later].device_id,
        ) != signal::address_text(peers[j].name, peers[j].device_id)) by {
        if replaced_later(peers, j) {
            let later = choose|later: int|
                j < later < peers.len() && address_of(#[trigger] peers[later]) == address_of(
                    peers[j],
                );
            assert(signal::address_text(peers[later].name, peers[later].device_id)
                == signal::address_text(peers[j].name, peers[j].device_id));
        } else {
            assert forall|later: int| j < later < peers.len() implies signal::address_text(
                (#[trigger] peers[later]).name,
                peers[later].device_id,
            ) != signal::address_text(peers[j].name, peers[j].device_id) by {
                assert(address_of(peers[later]) != address_of(peers[j]));
            }
        }
    }
    at
}

proof fn lemma_latest(peers: Seq<BundleView>, from: int) -> (at: Seq<int>)
    requires
        0 <= from <= peers.len(),
    ensures
        rows::ascending(at, peers.len() as int),
        forall|k: int| 0 <= k < at.len() ==> from <= #[trigger] at[k],
        latest(peers, from).len() == at.len(),
        forall|k: int| 0 <= k < at.len() ==> latest(peers, from)[k] == peers[#[trigger] at[k]],
        forall|j: int|
            from <= j < peers.len() ==> (#[trigger] at.contains(j) <==> !replaced_later(peers, j)),
    decreases peers.len() - from,
{
    if from >= peers.len() {
        Seq::empty()
    } else {
        let rest = lemma_latest(peers, from + 1);
        if replaced_later(peers, from) {
            assert forall|j: int| from <= j < peers.len() implies (#[trigger] rest.contains(j)
                <==> !replaced_later(peers, j)) by {
                if j == from && rest.contains(j) {
                    let k = choose|k: int| 0 <= k < rest.len() && rest[k] == j;
                    assert(from + 1 <= rest[k]);
                }
            }
            rest
        } else {
            let at = seq![from] + rest;
            assert forall|k: int| 0 <= k < at.len() implies latest(peers, from)[k]
                == peers[#[trigger] at[k]] && from <= at[k] < peers.len() by {
                if k > 0 {
                    assert(at[k] == rest[k - 1]);
                    assert(latest(peers, from)[k] == latest(peers, from + 1)[k - 1]);
                }
            }
            assert forall|i: int, j: int| 0 <= i < j < at.len() implies #[trigger] at[i]
                < #[trigger] at[j] by {
                assert(at[j] == rest[j - 1]);
                if i > 0 {
                    assert(at[i] == rest[i - 1]);
                }
            }
            assert forall|j: int| from <= j < peers.len() implies (#[trigger] at.contains(j)
                <==> !replaced_later(peers, j)) by {
                if j == from {
                    assert(at[0] == from);
                } else {
                    if rest.contains(j) {
                        let k = choose|k: int| 0 <= k < rest.len() && rest[k] == j;
                        assert(at[k + 1] == j);
                    }
                    if at.contains(j) {
                        let k = choose|k: int| 0 <= k < at.len() && at[k] == j;
                        assert(rest[k - 1] == j);
                    }
                }
            }
            at
        }
    }
}

/// Of a history that lobbies shared, a peer gets exactly the entries that name it or its
/// address, and the first peer those that name nobody, all as they are and in their
/// order.
pub proof fn law_shared_history_is_divided(shared: HistoryView, peer: BundleView, first: bool) -> (at:
    Seq<int>)
    ensures
        rows::ascending(at, shared.entries.len() as int),
        entries_for(shared, peer, first).entries.len() == at.len(),
        entries_for(shared, peer, first).transport_cursor == 0,
        forall|k: int|
            0 <= k < at.len() ==> entries_for(shared, peer, first).entries[k]
                == shared.entries[#[trigger] at[k]],
        forall|j: int|
            0 <= j < shared.entries.len() ==> (at.contains(j) <==> (
            #[trigger] shared.entries[j]).peer == peer.name || shared.entries[j].peer
                == signal::address_text(peer.name, peer.device_id) || (first
                && shared.entries[j].peer.len() == 0)),
{
    let wanted = is_entry_of(peer, first);
    let at = rows::lemma_kept_positions(shared.entries, wanted);
    assert forall|j: int| 0 <= j < shared.entries.len() implies (at.contains(j) <==> (
    #[trigger] shared.entries[j]).peer == peer.name || shared.entries[j].peer
        == signal::address_text(peer.name, peer.device_id) || (first
        && shared.entries[j].peer.len() == 0)) by {
        assert(wanted(shared.entries[j]) <==> shared.entries[j].peer == peer.name
            || shared.entries[j].peer == signal::address_text(peer.name, peer.device_id) || (first
            && shared.entries[j].peer.len() == 0));
        if at.contains(j) {
            let k = choose|k: int| 0 <= k < at.len() && at[k] == j;
            assert(wanted(shared.entries[at[k]]));
        }
    }
    at
}

/// A message that is copied is kept behind all others as one of this side, and a message
/// that is pasted as one of the peer, each with its own ID, text and ciphertext. One
/// that is there already, or is no text, is not kept. No other entry changes.
pub proof fn law_copied_and_pasted_messages_are_kept(
    h: HistoryView,
    now: u64,
    peer: BundleView,
    message: SafeChatMessageView,
    envelope: Seq<u8>,
)
    ensures
        ({
            let entry = copied_entry(now, peer, message.plaintext, message.id, envelope);
            &&& entry.timestamp == now
            &&& entry.sender == "you"@
            &&& entry.message_id == text::hex(message.id)
            &&& entry.peer == signal::address_text(peer.name, peer.device_id)
            &&& transport::line_bytes(entry.ciphertext) == Some(envelope)
            &&& entry.delivery_status.len() == 0
            &&& entry.transport_recipient.len() == 0
        }),
        ({
            let after = pasted_into(h, now, peer, message, envelope);
            let known = exists|i: int|
                0 <= i < h.entries.len() && (#[trigger] h.entries[i]).message_id == text::hex(
                    message.id,
                );
            let last = h.entries.len() as int;
            &&& known || !valid_utf8(message.plaintext) ==> after == h
            &&& !known && valid_utf8(message.plaintext) ==> {
                &&& after.entries.len() == last + 1
                &&& forall|i: int| 0 <= i < last ==> #[trigger] after.entries[i] == h.entries[i]
                &&& after.transport_cursor == h.transport_cursor
                &&& after.version == h.version
                &&& after.entries[last].timestamp == now
                &&& after.entries[last].sender == peer.name
                &&& after.entries[last].text == decode_utf8(message.plaintext)
                &&& after.entries[last].message_id == text::hex(message.id)
                &&& after.entries[last].peer == signal::address_text(peer.name, peer.device_id)
                &&& transport::line_bytes(after.entries[last].ciphertext) == Some(envelope)
                &&& after.entries[last].delivery_status == "received"@
            }
        }),
{
    let encoded = primitives::base64_url(envelope);
    transport::lemma_encoding_trimmed(envelope, Seq::empty());
    assert(encoded + Seq::<char>::empty() =~= encoded);
    primitives::law_base64_round_trip(envelope);
}

/// A character that is typed is the last of the line, and a step back takes the last
/// one away. An escape leaves nothing, and no other key changes the line.
pub proof fn law_keys_edit_the_end_of_the_line(line: Seq<char>, character: char)
    ensures
        edited(line, EditorKey::Character(character)).len() == line.len() + 1,
        edited(line, EditorKey::Character(character)).last() == character,
        edited(edited(line, EditorKey::Character(character)), EditorKey::Backspace) == line,
        line.len() == 0 ==> edited(line, EditorKey::Backspace) == line,
        edited(line, EditorKey::Escape).len() == 0,
        edited(line, EditorKey::Enter) == line,
        edited(line, EditorKey::Interrupt) == line,
        edited(line, EditorKey::Other) == line,
{
    assert(line.push(character).drop_last() =~= line);
}

/// A history is shown entry by entry, in order, between a heading and a blank line. Each
/// line carries the time, the sender and the text or the ciphertext of its own entry.
pub proof fn law_every_entry_is_shown(entries: Seq<EntryView>, mode: HistoryMode, i: int)
    requires
        0 <= i < entries.len(),
    ensures
        history_lines(entries, mode).len() == entries.len() + 2,
        ({
            let line = history_lines(entries, mode)[i + 1];
            let start = "["@ + shown_time(entries[i].timestamp) + "] "@ + entries[i].sender
                + ": "@;
            let body = match mode {
                HistoryMode::Ciphertext => entries[i].ciphertext,
                HistoryMode::Clean => entries[i].text,
            };
            let own = if entries[i].sender == "you"@ {
                2int
            } else {
                0
            };
            &&& line.len() >= own + start.len() + body.len()
            &&& line.subrange(own, own + start.len()) == start
            &&& line.subrange(own + start.len(), own + start.len() + body.len()) == body
            &&& line.skip((own + start.len() + body.len()) as int) == status_label(
                entries[i].delivery_status,
            )
        }),
{
    let line = history_lines(entries, mode)[i + 1];
    let entry = entries[i];
    let start = "["@ + shown_time(entry.timestamp) + "] "@ + entry.sender + ": "@;
    let body = match mode {
        HistoryMode::Ciphertext => entry.ciphertext,
        HistoryMode::Clean => entry.text,
    };
    reveal_strlit("  ");
    reveal_strlit("");
    let own = if entry.sender == "you"@ {
        "  "@
    } else {
        ""@
    };
    assert(line == history_line(entry, shown_time(entry.timestamp), mode));
    assert(line =~= own + start + body + status_label(entry.delivery_status));
    assert(line.subrange(own.len() as int, (own.len() + start.len()) as int) =~= start);
    assert(line.subrange(
        (own.len() + start.len()) as int,
        (own.len() + start.len() + body.len()) as int,
    ) =~= body);
    assert(line.skip((own.len() + start.len() + body.len()) as int) =~= status_label(
        entry.delivery_status,
    ));
}

} // verus!
