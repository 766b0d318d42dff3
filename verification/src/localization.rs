//! Texts of the desktop client in the languages that are installed.
use vstd::prelude::*;

use crate::text;
use crate::text::{lower_text, same_text};

verus! {

/// The texts of the desktop client in one language.
#[derive(Clone, Debug, PartialEq, Eq)]
pub struct UiText {
    pub my_profile: String,
    pub ready: String,
    pub conversations: String,
    pub search_conversations: String,
    pub new_conversation: String,
    pub verified_contact: String,
    pub no_conversations: String,
    pub verified_encrypted: String,
    pub load_older: String,
    pub new_conversation_help: String,
    pub contact_bundle: String,
    pub contact_fingerprint: String,
    pub profile_password: String,
    pub verify_add_contact: String,
    pub contact_added: String,
    pub select_conversation: String,
    pub type_message: String,
    pub send: String,
    pub paste_encrypted: String,
    pub receive_pasted: String,
    pub unlock: String,
    pub create_profile: String,
    pub unlock_help: String,
    pub create_help: String,
    pub profile_name: String,
    pub password: String,
    pub confirm_password: String,
    pub create_profile_button: String,
    pub unlock_profile: String,
    pub back_to_profiles: String,
    pub create_new_profile: String,
    pub fingerprint: String,
    pub your_fingerprint: String,
    pub share_bundle: String,
    pub copy_bundle: String,
    pub close: String,
}

/// A locale file that is installed.
#[derive(Clone, Debug, PartialEq, Eq)]
pub struct InstalledLocale {
    pub file_name: String,
    /// What the file holds, where it can be read.
    pub text: Option<UiText>,
}

/// Why there are no texts.
#[derive(Clone, Copy, Debug, PartialEq, Eq, Structural)]
pub enum LocaleError {
    /// The file of the language cannot be read.
    Malformed,
    /// There is no file of the language, nor an English one.
    NotInstalled,
}

/// The name of a language's file.
pub open spec fn file_name(language: Seq<char>) -> Seq<char> {
    text::ascii_lowered(language) + ".json"@
}

/// The name of a language's file.
pub fn locale_file_name(language: &str) -> (name: String)
    ensures
        name@ == file_name(language@),
{
    let mut name = lower_text(language);
    name.append(".json");
    name
}

/// Where the file of a language may be, the first place first: beside the
/// executable, in the sources that an executable under development belongs to, in
/// the sources, and in the working directory.
pub open spec fn candidate_paths(
    language: Seq<char>,
    executable_directory: Option<Seq<char>>,
    source_directory: Seq<char>,
) -> Seq<Seq<char>> {
    let name = file_name(language);
    let installed = seq![source_directory + "/locales/"@ + name, "locales/"@ + name];
    match executable_directory {
        Some(directory) => seq![
            directory + "/locales/"@ + name,
            directory + "/../../slint-ui/locales/"@ + name,
        ] + installed,
        None => installed,
    }
}

fn joined(directory: &str, middle: &str, name: &str) -> (path: String)
    ensures
        path@ == directory@ + middle@ + name@,
{
    let mut path = directory.to_owned();
    path.append(middle);
    path.append(name);
    path
}

/// Where the file of a language may be, the first place first.
pub fn locale_paths(
    language: &str,
    executable_directory: Option<&str>,
    source_directory: &str,
) -> (paths: Vec<String>)
    ensures
        paths@.map_values(|path: String| path@) == candidate_paths(
            language@,
            match executable_directory {
                Some(directory) => Some(directory@),
                None => None,
            },
            source_directory@,
        ),
{
    let name = locale_file_name(language);
    let mut paths: Vec<String> = Vec::new();
    if let Some(directory) = executable_directory {
        paths.push(joined(directory, "/locales/", name.as_str()));
        paths.push(joined(directory, "/../../slint-ui/locales/", name.as_str()));
    }
    paths.push(joined(source_directory, "/locales/", name.as_str()));
    paths.push(joined("locales/", "", name.as_str()));
    proof {
        reveal_strlit("");
        assert("locales/"@ + ""@ + name@ =~= "locales/"@ + name@);
        assert(paths@.map_values(|path: String| path@) =~= candidate_paths(
            language@,
            match executable_directory {
                Some(directory) => Some(directory@),
                None => None,
            },
            source_directory@,
        ));
    }
    paths
}

/// The first installed file with a name at or behind `from`, or their number.
pub open spec fn find_file(installed: Seq<InstalledLocale>, name: Seq<char>, from: int) -> int
    decreases installed.len() - from,
{
    if from >= installed.len() {
        installed.len() as int
    } else if installed[from].file_name@ == name {
        from
    } else {
        find_file(installed, name, from + 1)
    }
}

/// The language that is asked for: English where none is named.
pub open spec fn requested_language(language: Seq<char>) -> Seq<char> {
    if language.len() == 0 {
        "en"@
    } else {
        language
    }
}

/// The installed file that serves a language, English being the fallback.
pub open spec fn serving_file(installed: Seq<InstalledLocale>, language: Seq<char>) -> int {
    let wanted = find_file(installed, file_name(requested_language(language)), 0);
    if wanted < installed.len() {
        wanted
    } else {
        find_file(installed, file_name("en"@), 0)
    }
}

fn find_locale(installed: &Vec<InstalledLocale>, name: &str) -> (index: usize)
    ensures
        index == find_file(installed@, name@, 0),
        index <= installed@.len(),
{
    let mut index: usize = 0;
    while index < installed.len()
        invariant
            index <= installed@.len(),
            find_file(installed@, name@, 0) == find_file(installed@, name@, index as int),
        decreases installed@.len() - index,
    {
        if same_text(installed[index].file_name.as_str(), name) {
            return index;
        }
        index += 1;
    }
    index
}

/// The texts of a language. English is the fallback when a requested locale is not
/// installed; malformed files are reported.
pub fn load<'a>(language: &str, installed: &'a Vec<InstalledLocale>) -> (result: Result<
    &'a UiText,
    LocaleError,
>)
    ensures
        ({
            let index = serving_file(installed@, language@);
            if index >= installed@.len() {
                result == Err::<&'a UiText, LocaleError>(LocaleError::NotInstalled)
            } else {
                match installed@[index].text {
                    Some(value) => result == Ok::<&'a UiText, LocaleError>(&value),
                    None => result == Err::<&'a UiText, LocaleError>(LocaleError::Malformed),
                }
            }
        }),
{
    let requested = if language.is_empty() {
        "en"
    } else {
        language
    };
    assert(requested@ == requested_language(language@));
    let mut index = find_locale(installed, locale_file_name(requested).as_str());
    if index >= installed.len() {
        index = find_locale(installed, locale_file_name("en").as_str());
    }
    if index >= installed.len() {
        return Err(LocaleError::NotInstalled);
    }
    match &installed[index].text {
        Some(value) => Ok(value),
        None => Err(LocaleError::Malformed),
    }
}

/// An installed English locale that can be read serves every language without a
/// file of its own.
pub proof fn law_english_is_the_fallback(
    installed: Seq<InstalledLocale>,
    language: Seq<char>,
)
    requires
        find_file(installed, file_name("en"@), 0) < installed.len(),
        find_file(installed, file_name(requested_language(language)), 0) >= installed.len(),
    ensures
        serving_file(installed, language) == find_file(installed, file_name("en"@), 0),
{
}

/// Whether an installed file is the first with a name.
pub open spec fn first_named(installed: Seq<InstalledLocale>, name: Seq<char>, index: int) -> bool {
    &&& 0 <= index < installed.len()
    &&& installed[index].file_name@ == name
    &&& forall|i: int| 0 <= i < index ==> (#[trigger] installed[i]).file_name@ != name
}

proof fn lemma_find_file(installed: Seq<InstalledLocale>, name: Seq<char>, from: int)
    requires
        0 <= from <= installed.len(),
        forall|i: int| 0 <= i < from ==> (#[trigger] installed[i]).file_name@ != name,
    ensures
        from <= find_file(installed, name, from) <= installed.len(),
        find_file(installed, name, from) < installed.len() ==> first_named(
            installed,
            name,
            find_file(installed, name, from),
        ),
        find_file(installed, name, from) == installed.len() ==> forall|i: int|
            0 <= i < installed.len() ==> (#[trigger] installed[i]).file_name@ != name,
    decreases installed.len() - from,
{
    if from < installed.len() && installed[from].file_name@ != name {
        lemma_find_file(installed, name, from + 1);
    }
}

/// A language is served by the first installed file that is named after it in lower
/// case, and no language by English. Where there is none, English serves, and where
/// that is not installed either, nothing does.
pub proof fn law_language_is_served_by_its_file(
    installed: Seq<InstalledLocale>,
    language: Seq<char>,
    index: int,
    english: int,
)
    ensures
        language.len() > 0 && first_named(
            installed,
            text::ascii_lowered(language) + ".json"@,
            index,
        ) ==> serving_file(installed, language) == index,
        first_named(installed, "en.json"@, english) && (language.len() == 0 || forall|i: int|
            0 <= i < installed.len() ==> (#[trigger] installed[i]).file_name@
                != text::ascii_lowered(language) + ".json"@) ==> serving_file(installed, language)
            == english,
        serving_file(installed, language) < installed.len() ==> {
            let name = installed[serving_file(installed, language)].file_name@;
            name == "en.json"@ || (language.len() > 0 && name == text::ascii_lowered(language)
                + ".json"@)
        },
{
    reveal_strlit("en");
    reveal_strlit(".json");
    reveal_strlit("en.json");
    assert(text::ascii_lowered("en"@) + ".json"@ =~= "en.json"@);
    let wanted = file_name(requested_language(language));
    lemma_find_file(installed, wanted, 0);
    lemma_find_file(installed, "en.json"@, 0);
    let found = find_file(installed, wanted, 0);
    let fallback = find_file(installed, "en.json"@, 0);
    if first_named(installed, wanted, index) {
        lemma_one_first(installed, wanted, index, found);
    }
    if first_named(installed, "en.json"@, english) {
        lemma_one_first(installed, "en.json"@, english, fallback);
    }
}

proof fn lemma_one_first(installed: Seq<InstalledLocale>, name: Seq<char>, left: int, right: int)
    requires
        first_named(installed, name, left),
        0 <= right <= installed.len(),
        right < installed.len() ==> first_named(installed, name, right),
        right == installed.len() ==> forall|i: int|
            0 <= i < installed.len() ==> (#[trigger] installed[i]).file_name@ != name,
    ensures
        left == right,
{
    if right < left {
        assert(installed[right].file_name@ != name);
    } else if left < right {
        assert(installed[left].file_name@ == name);
    }
}

} // verus!
