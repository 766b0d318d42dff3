//! What the window service asks of the machine it runs on.
use vstd::prelude::*;

use crate::history::{HistoryFile, HistoryPage};
use crate::history;
use crate::ui_service::ProfileReadyData;

verus! {

/// Why a port could not do what it was asked, as a text for the operator.
#[derive(Debug, PartialEq, Eq)]
pub struct PortError {
    pub source: String,
}

/// The profiles on this machine.
pub trait ProfileStore {
    fn available_profiles(&self) -> Result<Vec<String>, PortError>;

    fn initialize(&self, profile: &str, password: &str, confirmation: &str) -> Result<
        ProfileReadyData,
        PortError,
    >;

    /// The name of the peer and the status line.
    fn verify_contact(
        &self,
        profile: &str,
        password: &str,
        bundle: &str,
        fingerprint: &str,
    ) -> Result<(String, String), PortError>;
}

/// The conversations of the profiles.
pub trait HistoryStore {
    fn load(&self, profile: &str, password: &str, peer: &str) -> Result<HistoryFile, PortError>;

    fn save(&self, profile: &str, password: &str, peer: &str, history: &HistoryFile) -> Result<
        (),
        PortError,
    >;

    /// Forgets a conversation: an empty one takes its place. What comes back is what
    /// saving the empty one gives.
    fn delete(&self, profile: &str, password: &str, peer: &str) -> (result: Result<(), PortError>)
        default_ensures
            exists|history: HistoryFile|
                #![trigger call_ensures(Self::save, (self, profile, password, peer, &history), result)]
                call_ensures(Self::save, (self, profile, password, peer, &history), result)
                    && history@ == history::empty_history(),
    {
        self.save(profile, password, peer, &HistoryFile::empty())
    }

    /// Loads one page of a conversation: that of the history which the store loads for
    /// the peer. Where the store loads none, the page fails alike.
    fn load_page(
        &self,
        profile: &str,
        password: &str,
        peer: &str,
        before: Option<usize>,
        page_size: usize,
    ) -> (result: Result<HistoryPage, PortError>)
        default_ensures
            exists|loaded: Result<HistoryFile, PortError>|
                #![trigger call_ensures(Self::load, (self, profile, password, peer), loaded)]
                call_ensures(Self::load, (self, profile, password, peer), loaded)
                    && history::is_page_of(result, loaded, before, page_size),
    {
        match self.load(profile, password, peer) {
            Ok(stored) => Ok(stored.page(before, page_size)),
            Err(error) => Err(error),
        }
    }
}

/// The clipboard of the desktop.
pub trait Clipboard {
    fn set_text(&self, text: &str) -> Result<(), PortError>;
}

/// The wall clock, in seconds since the Unix epoch.
pub trait Clock {
    fn now(&self) -> u64;
}

} // verus!
