//! Chat history and the profile data that is kept beside it.
use vstd::prelude::*;

use crate::text;
use crate::text::{component_text, same_text};

verus! {

pub const PROFILE_VERSION: u32 = 1;

/// One line of a conversation.
#[derive(Clone, Debug, PartialEq, Eq)]
pub struct HistoryEntry {
    pub timestamp: u64,
    pub sender: String,
    pub text: String,
    pub message_id: String,
    pub peer: String,
    pub ciphertext: String,
    pub delivery_status: String,
    pub transport_recipient: String,
}

/// The contents of a [`HistoryEntry`].
#[verifier::ext_equal]
pub struct EntryView {
    pub timestamp: u64,
    pub sender: Seq<char>,
    pub text: Seq<char>,
    pub message_id: Seq<char>,
    pub peer: Seq<char>,
    pub ciphertext: Seq<char>,
    pub delivery_status: Seq<char>,
    pub transport_recipient: Seq<char>,
}

impl View for HistoryEntry {
    type V = EntryView;

    open spec fn view(&self) -> EntryView {
        EntryView {
            timestamp: self.timestamp,
            sender: self.sender@,
            text: self.text@,
            message_id: self.message_id@,
            peer: self.peer@,
            ciphertext: self.ciphertext@,
            delivery_status: self.delivery_status@,
            transport_recipient: self.transport_recipient@,
        }
    }
}

impl HistoryEntry {
    /// Creates a user-visible history entry with optional transport metadata
    /// left at its safe defaults.
    pub fn new(timestamp: u64, sender: String, text: String) -> (entry: HistoryEntry)
        ensures
            entry@ == (EntryView {
                timestamp,
                sender: sender@,
                text: text@,
                message_id: Seq::empty(),
                peer: Seq::empty(),
                ciphertext: Seq::empty(),
                delivery_status: Seq::empty(),
                transport_recipient: Seq::empty(),
            }),
    {
        HistoryEntry {
            timestamp,
            sender,
            text,
            message_id: String::new(),
            peer: String::new(),
            ciphertext: String::new(),
            delivery_status: String::new(),
            transport_recipient: String::new(),
        }
    }

    pub fn with_message_id(self, message_id: String) -> (entry: HistoryEntry)
        ensures
            entry@ == (EntryView { message_id: message_id@, ..self@ }),
    {
        HistoryEntry { message_id, ..self }
    }

    pub fn with_peer(self, peer: String) -> (entry: HistoryEntry)
        ensures
            entry@ == (EntryView { peer: peer@, ..self@ }),
    {
        HistoryEntry { peer, ..self }
    }

    pub fn with_ciphertext(self, ciphertext: String) -> (entry: HistoryEntry)
        ensures
            entry@ == (EntryView { ciphertext: ciphertext@, ..self@ }),
    {
        HistoryEntry { ciphertext, ..self }
    }

    pub fn with_delivery_status(self, status: String) -> (entry: HistoryEntry)
        ensures
            entry@ == (EntryView { delivery_status: status@, ..self@ }),
    {
        HistoryEntry { delivery_status: status, ..self }
    }

    pub fn with_transport_recipient(self, recipient: String) -> (entry: HistoryEntry)
        ensures
            entry@ == (EntryView { transport_recipient: recipient@, ..self@ }),
    {
        HistoryEntry { transport_recipient: recipient, ..self }
    }

    /// A copy of the entry.
    pub(crate) fn copy(&self) -> (entry: HistoryEntry)
        ensures
            entry@ == self@,
    {
        HistoryEntry {
            timestamp: self.timestamp,
            sender: self.sender.clone(),
            text: self.text.clone(),
            message_id: self.message_id.clone(),
            peer: self.peer.clone(),
            ciphertext: self.ciphertext.clone(),
            delivery_status: self.delivery_status.clone(),
            transport_recipient: self.transport_recipient.clone(),
        }
    }
}

/// The contents of every entry of a list.
pub open spec fn entry_views(entries: Seq<HistoryEntry>) -> Seq<EntryView> {
    entries.map_values(|entry: HistoryEntry| entry@)
}

/// The history of one conversation.
#[derive(Clone, Debug)]
pub struct HistoryFile {
    pub version: u32,
    pub entries: Vec<HistoryEntry>,
    pub transport_cursor: i64,
}

/// The contents of a [`HistoryFile`].
#[verifier::ext_equal]
pub struct HistoryView {
    pub version: u32,
    pub entries: Seq<EntryView>,
    pub transport_cursor: i64,
}

impl View for HistoryFile {
    type V = HistoryView;

    open spec fn view(&self) -> HistoryView {
        HistoryView {
            version: self.version,
            entries: entry_views(self.entries@),
            transport_cursor: self.transport_cursor,
        }
    }
}

/// Part of a history, as it is shown.
#[derive(Clone, Debug, PartialEq, Eq)]
pub struct HistoryPage {
    pub entries: Vec<HistoryEntry>,
    pub cursor: usize,
    pub has_more: bool,
    pub transport_cursor: i64,
}

/// Where a page ends: in front of `before`, or behind the newest entry.
pub open spec fn page_end(length: int, before: Option<usize>) -> int {
    match before {
        Some(end) => if end < length {
            end as int
        } else {
            length
        },
        None => length,
    }
}

/// Where a page opens: a page holds at most `page_size` entries, but never none
/// where there are some.
pub open spec fn page_start(length: int, before: Option<usize>, page_size: usize) -> int {
    let size = if page_size == 0 {
        1int
    } else {
        page_size as int
    };
    let end = page_end(length, before);
    if end < size {
        0
    } else {
        end - size
    }
}

/// Whether a page is the one of a history that ends before `before`.
pub open spec fn is_page(
    page: HistoryPage,
    history: HistoryView,
    before: Option<usize>,
    page_size: usize,
) -> bool {
    let length = history.entries.len() as int;
    let start = page_start(length, before, page_size);
    &&& entry_views(page.entries@) == history.entries.subrange(start, page_end(length, before))
    &&& page.cursor == start
    &&& page.has_more == (start > 0)
    &&& page.transport_cursor == history.transport_cursor
}

/// Whether a page was asked of a store that loads `loaded`: the page of the history,
/// or the store's own error.
pub open spec fn is_page_of<E>(
    result: Result<HistoryPage, E>,
    loaded: Result<HistoryFile, E>,
    before: Option<usize>,
    page_size: usize,
) -> bool {
    match loaded {
        Ok(history) => result matches Ok(page) && is_page(page, history@, before, page_size),
        Err(error) => result == Err::<HistoryPage, E>(error),
    }
}

/// Copies the entries from `start` to `end`.
pub(crate) fn copy_entries(entries: &[HistoryEntry], start: usize, end: usize) -> (copy: Vec<
    HistoryEntry,
>)
    requires
        start <= end <= entries@.len(),
    ensures
        entry_views(copy@) == entry_views(entries@).subrange(start as int, end as int),
{
    let mut copy: Vec<HistoryEntry> = Vec::new();
    let mut index: usize = start;
    let ghost all = entry_views(entries@);
    assert(entry_views(copy@) =~= all.subrange(start as int, start as int));
    while index < end
        invariant
            start <= index <= end <= entries@.len(),
            all == entry_views(entries@),
            entry_views(copy@) == all.subrange(start as int, index as int),
        decreases end - index,
    {
        let ghost before = copy@;
        copy.push(entries[index].copy());
        assert(entry_views(copy@) =~= entry_views(before).push(all[index as int]));
        assert(entry_views(copy@) =~= all.subrange(start as int, index + 1));
        index += 1;
    }
    copy
}

/// A history without entries.
pub open spec fn empty_history() -> HistoryView {
    HistoryView { version: PROFILE_VERSION, entries: Seq::empty(), transport_cursor: 0 }
}

impl HistoryFile {
    /// Creates an empty history using the current on-disk format version.
    pub fn empty() -> (history: HistoryFile)
        ensures
            history@ == empty_history(),
    {
        let history = HistoryFile {
            version: PROFILE_VERSION,
            entries: Vec::new(),
            transport_cursor: 0,
        };
        assert(entry_views(history.entries@) =~= Seq::empty());
        history
    }

    /// Creates a history containing the supplied entries.
    pub fn new(entries: Vec<HistoryEntry>) -> (history: HistoryFile)
        ensures
            history@ == (HistoryView {
                version: PROFILE_VERSION,
                entries: entry_views(entries@),
                transport_cursor: 0,
            }),
    {
        HistoryFile { version: PROFILE_VERSION, entries, transport_cursor: 0 }
    }

    pub fn with_transport_cursor(self, cursor: i64) -> (history: HistoryFile)
        ensures
            history@ == (HistoryView { transport_cursor: cursor, ..self@ }),
    {
        HistoryFile { transport_cursor: cursor, ..self }
    }

    /// Returns a page ending immediately before `before`; without it the newest
    /// page.
    pub fn page(&self, before: Option<usize>, page_size: usize) -> (page: HistoryPage)
        ensures
            is_page(page, self@, before, page_size),
    {
        let size: usize = if page_size == 0 {
            1
        } else {
            page_size
        };
        let end: usize = match before {
            Some(end) if end < self.entries.len() => end,
            _ => self.entries.len(),
        };
        let start: usize = if end < size {
            0
        } else {
            end - size
        };
        HistoryPage {
            entries: copy_entries(self.entries.as_slice(), start, end),
            cursor: start,
            has_more: start > 0,
            transport_cursor: self.transport_cursor,
        }
    }
}

/// Pages that are asked for one after the other, each ending where the last one
/// opened, put together the history without a gap or an overlap.
pub proof fn law_pages_join(entries: Seq<EntryView>, before: Option<usize>, page_size: usize)
    requires
        entries.len() <= usize::MAX,
    ensures
        ({
            let length = entries.len() as int;
            let start = page_start(length, before, page_size);
            let end = page_end(length, before);
            let older = page_start(length, Some(start as usize), page_size);
            &&& 0 <= start <= end <= length
            &&& end > 0 ==> start < end
            &&& page_end(length, Some(start as usize)) == start
            &&& entries.subrange(older, start) + entries.subrange(start, end) == entries.subrange(
                older,
                end,
            )
        }),
{
    let length = entries.len() as int;
    let start = page_start(length, before, page_size);
    let end = page_end(length, before);
    let older = page_start(length, Some(start as usize), page_size);
    assert(entries.subrange(older, start) + entries.subrange(start, end) =~= entries.subrange(
        older,
        end,
    ));
}

/// Why stored profile data could not be used.
#[derive(Clone, Copy, Debug, PartialEq, Eq, Structural)]
pub enum StoreError {
    UnsupportedHistoryVersion,
    Locked,
    NotUtf8,
    EmptyRelaySession,
    InvalidHistoryKey,
    InvalidPeerIds,
}

/// Accepts a history that was read from disk: one that does not exist yet is
/// empty, and only the current version is understood.
pub fn load_history(stored: Option<HistoryFile>) -> (result: Result<HistoryFile, StoreError>)
    ensures
        match stored {
            None => result matches Ok(history) && history@ == (HistoryView {
                version: PROFILE_VERSION,
                entries: Seq::empty(),
                transport_cursor: 0,
            }),
            Some(history) => if history.version == PROFILE_VERSION {
                result == Ok::<HistoryFile, StoreError>(history)
            } else {
                result == Err::<HistoryFile, StoreError>(StoreError::UnsupportedHistoryVersion)
            },
        },
{
    match stored {
        None => Ok(HistoryFile::empty()),
        Some(history) => {
            if history.version != PROFILE_VERSION {
                return Err(StoreError::UnsupportedHistoryVersion);
            }
            Ok(history)
        },
    }
}

/// The name of the file that holds a conversation.
pub open spec fn history_file_name(conversation: Seq<char>) -> Seq<char> {
    text::component(conversation) + seq!['.', 'a', 'g', 'e']
}

/// The name of the file that holds a conversation.
pub fn path_for(conversation: &str) -> (name: String)
    ensures
        name@ == history_file_name(conversation@),
{
    let mut name = component_text(conversation);
    proof {
        reveal_strlit(".age");
    }
    name.append(".age");
    assert(name@ =~= history_file_name(conversation@));
    name
}

/// Where a relay is and how it may be reached.
#[derive(Clone, Debug)]
pub struct RelayConfig {
    pub base_url: String,
    pub allow_insecure_http: bool,
    pub enrollment_secret: String,
}

impl RelayConfig {
    /// A relay that may only be reached over HTTPS.
    pub fn new(base_url: String, enrollment_secret: String) -> (config: RelayConfig)
        ensures
            config.base_url@ == base_url@,
            config.enrollment_secret@ == enrollment_secret@,
            !config.allow_insecure_http,
    {
        RelayConfig { base_url, allow_insecure_http: false, enrollment_secret }
    }

    pub fn with_insecure_http(self, allowed: bool) -> (config: RelayConfig)
        ensures
            config == (RelayConfig { allow_insecure_http: allowed, ..self }),
    {
        RelayConfig { allow_insecure_http: allowed, ..self }
    }
}

/// Persistence port consumed by the chat service.
pub trait HistoryStore {
    fn load(&mut self, conversation: &str) -> Result<HistoryFile, StoreError>;

    fn save(&mut self, conversation: &str, history: &HistoryFile) -> Result<(), StoreError>;

    /// Forgets a conversation: an empty one takes its place. What comes back is what
    /// saving the empty one gives.
    fn delete(&mut self, conversation: &str) -> (result: Result<(), StoreError>)
        default_ensures
            exists|store: &mut Self, history: HistoryFile|
                #![trigger call_ensures(Self::save, (store, conversation, &history), result)]
                call_ensures(Self::save, (store, conversation, &history), result) && &*store
                    == &*old(self) && &*final(store) == &*final(self) && history@
                    == empty_history(),
    {
        self.save(conversation, &HistoryFile::empty())
    }

    /// Loads one page of history. Seekable stores should override this method. The
    /// page is that of the history that the store loads for the conversation, and
    /// where it loads none the page fails alike.
    fn load_page(&mut self, conversation: &str, before: Option<usize>, page_size: usize) -> (result:
        Result<HistoryPage, StoreError>)
        default_ensures
            exists|store: &mut Self, loaded: Result<HistoryFile, StoreError>|
                #![trigger call_ensures(Self::load, (store, conversation), loaded)]
                call_ensures(Self::load, (store, conversation), loaded) && &*store == &*old(self)
                    && &*final(store) == &*final(self) && is_page_of(
                    result,
                    loaded,
                    before,
                    page_size,
                ),
    {
        match self.load(conversation) {
            Ok(history) => Ok(history.page(before, page_size)),
            Err(error) => Err(error),
        }
    }
}

/// A page ends where it is asked to end, or with the last entry, and holds as many of
/// the entries in front of that as fit on it, in their order. It says where it starts
/// and whether there is anything in front.
pub proof fn law_page_holds_what_fits(
    page: HistoryPage,
    history: HistoryView,
    before: Option<usize>,
    page_size: usize,
)
    requires
        is_page(page, history, before, page_size),
    ensures
        ({
            let shown = page.entries@.len() as int;
            let end = page.cursor + shown;
            &&& before is None ==> end == history.entries.len()
            &&& before matches Some(limit) ==> end == if limit < history.entries.len() {
                limit as int
            } else {
                history.entries.len() as int
            }
            &&& page_size > 0 ==> shown <= page_size
            &&& page_size > 0 && page.cursor > 0 ==> shown == page_size
            &&& page_size == 0 ==> shown <= 1
            &&& page.has_more <==> page.cursor > 0
            &&& page.transport_cursor == history.transport_cursor
            &&& forall|i: int|
                #![trigger page.entries@[i]]
                0 <= i < shown ==> page.entries@[i]@ == history.entries[page.cursor + i]
        }),
{
    let length = history.entries.len() as int;
    let start = page_start(length, before, page_size);
    let end = page_end(length, before);
    assert(entry_views(page.entries@).len() == end - start);
    assert forall|i: int|
        #![trigger page.entries@[i]]
        0 <= i < page.entries@.len() implies page.entries@[i]@ == history.entries[page.cursor
        + i] by {
        assert(entry_views(page.entries@)[i] == history.entries[start + i]);
    }
}

/// The file of a conversation is named after it: every character that is safe in a path
/// stays, every other is an underscore, and `.age` stands at the end.
pub proof fn law_history_file_is_named_after_the_conversation(conversation: Seq<char>, i: int)
    requires
        0 <= i < conversation.len(),
    ensures
        history_file_name(conversation).len() == conversation.len() + 4,
        history_file_name(conversation).skip(conversation.len() as int) == seq![
            '.',
            'a',
            'g',
            'e',
        ],
        'a' <= conversation[i] <= 'z' || 'A' <= conversation[i] <= 'Z' || '0' <= conversation[i]
            <= '9' || conversation[i] == '-' || conversation[i] == '_' ==> history_file_name(
            conversation,
        )[i] == conversation[i],
        history_file_name(conversation)[i] != '/' && history_file_name(conversation)[i] != '.',
{
    text::law_component_keeps_plain_characters(conversation, i);
    assert(history_file_name(conversation).skip(conversation.len() as int) =~= seq![
        '.',
        'a',
        'g',
        'e',
    ]);
}

} // verus!
