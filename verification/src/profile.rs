//! Profiles: their names, their files, and the contacts that they hold.
use vstd::prelude::*;

use crate::bundle;
use crate::bundle::{BundleView, SignalPreKeyBundle};
use crate::primitives;
use crate::signal;
use crate::signal::SignalError;
use crate::text;
use crate::text::{
    ascii_alphanumeric, characters, component_text, contains_char, lower_char, same_text, trim,
};
use crate::transport;
use crate::transport::BundleTransport;

verus! {

/// Why a profile cannot be used.
#[derive(Clone, Copy, Debug, PartialEq, Eq, Structural)]
pub enum ProfileError {
    EmptyPassword,
    InvalidName,
    PasswordMismatch,
}

impl ProfileError {
    /// What a user is told.
    pub fn message(self) -> (message: &'static str)
        ensures
            message@ == (match self {
                ProfileError::EmptyPassword => "password must not be empty"@,
                ProfileError::InvalidName => "profile name must be a simple non-empty name"@,
                ProfileError::PasswordMismatch => "passwords do not match"@,
            }),
    {
        match self {
            ProfileError::EmptyPassword => "password must not be empty",
            ProfileError::InvalidName => "profile name must be a simple non-empty name",
            ProfileError::PasswordMismatch => "passwords do not match",
        }
    }
}

/// Whether a text names one directory and no other place.
pub open spec fn simple_name(name: Seq<char>) -> bool {
    &&& name.len() > 0
    &&& name != "."@
    &&& name != ".."@
    &&& !name.contains('/')
    &&& !name.contains('\\')
}

/// The name of a profile as its directory has it.
pub open spec fn profile_name(profile: Seq<char>) -> Result<Seq<char>, ProfileError> {
    let name = text::trimmed(profile);
    if simple_name(name) {
        Ok(name)
    } else {
        Err(ProfileError::InvalidName)
    }
}

/// Checks the name of a profile, and takes the white space off it.
pub fn validate_profile_name(profile: &str) -> (result: Result<String, ProfileError>)
    ensures
        match profile_name(profile@) {
            Ok(name) => result matches Ok(value) && value@ == name,
            Err(error) => result == Err::<String, ProfileError>(error),
        },
{
    let name = trim(profile);
    if name.as_str().is_empty() || same_text(name.as_str(), ".") || same_text(name.as_str(), "..")
        || contains_char(name.as_str(), '/') || contains_char(name.as_str(), '\\') {
        return Err(ProfileError::InvalidName);
    }
    Ok(name)
}

/// A checked profile name is simple, and checking it again changes nothing.
pub proof fn law_profile_name_stable(profile: Seq<char>)
    requires
        profile_name(profile) is Ok,
    ensures
        simple_name(profile_name(profile)->Ok_0),
        profile_name(profile_name(profile)->Ok_0) == profile_name(profile),
{
    text::lemma_trimmed_ends(profile);
    let name = text::trimmed(profile);
    text::lemma_trim_end(name, Seq::empty());
    assert(name + Seq::<char>::empty() =~= name);
}

/// A profile's path below the data directory, and a file in it.
pub open spec fn profile_path(name: Seq<char>, file: Seq<char>) -> Seq<char> {
    name + "/"@ + file
}

/// No file belongs to two profiles.
pub proof fn law_profiles_share_no_file(
    profile: Seq<char>,
    other: Seq<char>,
    file: Seq<char>,
    other_file: Seq<char>,
)
    requires
        profile_name(profile) is Ok,
        profile_name(other) is Ok,
        profile_path(profile_name(profile)->Ok_0, file) == profile_path(
            profile_name(other)->Ok_0,
            other_file,
        ),
    ensures
        profile_name(profile) == profile_name(other),
        file == other_file,
{
    reveal_strlit("/");
    let name = profile_name(profile)->Ok_0;
    let other_name = profile_name(other)->Ok_0;
    let path = profile_path(name, file);
    let other_path = profile_path(other_name, other_file);
    assert(path[name.len() as int] == '/');
    assert(other_path[other_name.len() as int] == '/');
    if name.len() < other_name.len() {
        assert(other_name[name.len() as int] == '/');
    } else if other_name.len() < name.len() {
        assert(name[other_name.len() as int] == '/');
    }
    assert(name =~= path.take(name.len() as int));
    assert(other_name =~= other_path.take(name.len() as int));
    assert(file =~= path.skip((name.len() + 1) as int));
    assert(other_file =~= other_path.skip((name.len() + 1) as int));
}

fn path_in(profile: &str, file: &str) -> (result: Result<String, ProfileError>)
    ensures
        match profile_name(profile@) {
            Ok(name) => result matches Ok(path) && path@ == profile_path(name, file@),
            Err(error) => result == Err::<String, ProfileError>(error),
        },
{
    match validate_profile_name(profile) {
        Ok(name) => {
            let mut path = name;
            path.append("/");
            path.append(file);
            Ok(path)
        },
        Err(error) => Err(error),
    }
}

/// Where the database of a profile is, below the data directory.
pub fn profile_database(profile: &str) -> (result: Result<String, ProfileError>)
    ensures
        match profile_name(profile@) {
            Ok(name) => result matches Ok(path) && path@ == profile_path(name, "identity.db"@),
            Err(error) => result == Err::<String, ProfileError>(error),
        },
{
    path_in(profile, "identity.db")
}

/// Where a profile is, below the data directory.
pub fn profile_directory(profile: &str) -> (result: Result<String, ProfileError>)
    ensures
        match profile_name(profile@) {
            Ok(name) => result matches Ok(path) && path@ == name,
            Err(error) => result == Err::<String, ProfileError>(error),
        },
{
    validate_profile_name(profile)
}

/// The file of a conversation, below its profile.
pub open spec fn lobby_file(peer: Seq<char>) -> Seq<char> {
    "lobbies/"@ + text::component(peer) + ".age"@
}

/// Where the history of a conversation is, below the data directory.
pub fn chat_history_file(profile: &str, peer: &str) -> (result: Result<String, ProfileError>)
    ensures
        match profile_name(profile@) {
            Ok(name) => result matches Ok(path) && path@ == profile_path(name, lobby_file(peer@)),
            Err(error) => result == Err::<String, ProfileError>(error),
        },
{
    let mut file = "lobbies/".to_owned();
    file.append(component_text(peer).as_str());
    file.append(".age");
    path_in(profile, file.as_str())
}

/// The files of a profile that a relay needs.
#[derive(Debug)]
pub struct ChatPaths {
    pub relay_config: String,
    pub relay_session: String,
    pub relay_peers: String,
    pub lobbies: String,
}

/// Where the relay's files and the histories of a profile are, below the data
/// directory.
pub fn chat_paths(profile: &str) -> (result: Result<ChatPaths, ProfileError>)
    ensures
        match profile_name(profile@) {
            Ok(name) => result matches Ok(paths) && ({
                &&& paths.relay_config@ == profile_path(name, "relay-config.age"@)
                &&& paths.relay_session@ == profile_path(name, "relay-session.age"@)
                &&& paths.relay_peers@ == profile_path(name, "relay-peers.age"@)
                &&& paths.lobbies@ == profile_path(name, "lobbies"@)
            }),
            Err(error) => result is Err && result->Err_0 == error,
        },
{
    Ok(
        ChatPaths {
            relay_config: path_in(profile, "relay-config.age")?,
            relay_session: path_in(profile, "relay-session.age")?,
            relay_peers: path_in(profile, "relay-peers.age")?,
            lobbies: path_in(profile, "lobbies")?,
        },
    )
}

/// Starts to unlock or create a profile: the password must not be empty, and the
/// name must be simple.
pub fn initialize_profile(profile: &str, password: &str) -> (result: Result<String, ProfileError>)
    ensures
        if password@.len() == 0 {
            result == Err::<String, ProfileError>(ProfileError::EmptyPassword)
        } else {
            match profile_name(profile@) {
                Ok(name) => result matches Ok(path) && path@ == profile_path(name, "identity.db"@),
                Err(error) => result == Err::<String, ProfileError>(error),
            }
        },
{
    if password.is_empty() {
        return Err(ProfileError::EmptyPassword);
    }
    profile_database(profile)
}

/// A new profile's password must have been typed twice.
pub fn confirm_password(existing: bool, password: &str, confirmation: &str) -> (result: Result<
    (),
    ProfileError,
>)
    ensures
        result == (if existing || password@ == confirmation@ {
            Ok::<(), ProfileError>(())
        } else {
            Err(ProfileError::PasswordMismatch)
        }),
{
    if !existing && !same_text(password, confirmation) {
        return Err(ProfileError::PasswordMismatch);
    }
    Ok(())
}

// ---------------------------------------------------------------------------
// Fingerprints
// ---------------------------------------------------------------------------

/// The small letters that Unicode gives for a character.
pub uninterp spec fn unicode_lower(character: char) -> Seq<char>;

/// `char::to_lowercase`, as text: a function of the character alone.
#[verifier::external_body]
fn to_lowercase(character: char) -> (lower: String)
    ensures
        lower@ == unicode_lower(character),
{
    character.to_lowercase().to_string()
}

/// Whether a character only separates the digits of a fingerprint.
pub open spec fn is_separator(character: char) -> bool {
    character == ' ' || character == '\t' || character == '\n' || character == '\x0c' || character
        == '\r' || character == ':'
}

/// A character of a fingerprint in small letters.
pub open spec fn lower_letters(character: char) -> Seq<char> {
    if (character as int) < 0x80 {
        seq![text::ascii_lower(character)]
    } else {
        unicode_lower(character)
    }
}

/// A fingerprint without separators and in small letters.
pub open spec fn normalized(value: Seq<char>) -> Seq<char>
    decreases value.len(),
{
    if value.len() == 0 {
        Seq::empty()
    } else {
        let rest = normalized(value.drop_last());
        if is_separator(value.last()) {
            rest
        } else {
            rest + lower_letters(value.last())
        }
    }
}

/// Takes the separators out of a fingerprint and makes its letters small.
pub fn normalize_fingerprint(value: &str) -> (result: String)
    ensures
        result@ == normalized(value@),
{
    let all = characters(value);
    let mut result = String::new();
    let mut index: usize = 0;
    assert(normalized(value@.take(0)) =~= Seq::<char>::empty());
    while index < all.len()
        invariant
            index <= all@.len(),
            all@ == value@,
            result@ == normalized(value@.take(index as int)),
        decreases all@.len() - index,
    {
        let character: char = all[index];
        assert(value@.take(index + 1).drop_last() =~= value@.take(index as int));
        assert(value@.take(index + 1).last() == character);
        let separator = character == ' ' || character == '\t' || character == '\n' || character
            == '\x0c' || character == '\r' || character == ':';
        if !separator {
            if (character as u32) < 0x80 {
                let ghost before = result@;
                result.push(lower_char(character));
                assert(result@ =~= before + lower_letters(character));
            } else {
                result.append(to_lowercase(character).as_str());
            }
        }
        index += 1;
    }
    assert(value@.take(index as int) =~= value@);
    result
}

proof fn lemma_normalized_joined(left: Seq<char>, right: Seq<char>)
    ensures
        normalized(left + right) == normalized(left) + normalized(right),
    decreases right.len(),
{
    if right.len() == 0 {
        assert(left + right =~= left);
    } else {
        lemma_normalized_joined(left, right.drop_last());
        assert((left + right).drop_last() =~= left + right.drop_last());
        assert((left + right).last() == right.last());
        assert(normalized(left + right) =~= normalized(left) + normalized(right));
    }
}

/// Separators may stand anywhere in a fingerprint.
pub proof fn law_fingerprint_separators(left: Seq<char>, separator: char, right: Seq<char>)
    requires
        is_separator(separator),
    ensures
        normalized(left + seq![separator] + right) == normalized(left + right),
{
    lemma_normalized_joined(left + seq![separator], right);
    lemma_normalized_joined(left, seq![separator]);
    lemma_normalized_joined(left, right);
    assert(seq![separator].drop_last() =~= Seq::empty());
    assert(normalized(seq![separator].drop_last()) =~= Seq::<char>::empty());
    assert(normalized(left) + Seq::<char>::empty() =~= normalized(left));
}

/// The ASCII letters of a fingerprint may be capital or small.
pub proof fn law_fingerprint_case(value: Seq<char>)
    ensures
        normalized(text::ascii_lowered(value)) == normalized(value),
    decreases value.len(),
{
    let lower = text::ascii_lowered(value);
    if value.len() > 0 {
        law_fingerprint_case(value.drop_last());
        assert(lower.drop_last() =~= text::ascii_lowered(value.drop_last()));
        assert(lower.last() == text::ascii_lower(value.last()));
        assert(lower_letters(lower.last()) =~= lower_letters(value.last()));
    } else {
        assert(lower =~= value);
    }
}

// ---------------------------------------------------------------------------
// Contacts
// ---------------------------------------------------------------------------

/// Why a contact cannot be taken.
#[derive(Clone, Copy, Debug, PartialEq, Eq, Structural)]
pub enum ContactError {
    /// The text is no bundle.
    InvalidText,
    /// The bytes are no bundle.
    InvalidBundle(SignalError),
    /// The fingerprint belongs to another bundle.
    FingerprintMismatch,
}

/// The bundle in a text.
pub open spec fn encoded_bundle(encoded: Seq<char>) -> Result<BundleView, ContactError> {
    match transport::line_bytes(text::trimmed(encoded)) {
        None => Err(ContactError::InvalidText),
        Some(bytes) => match bundle::bundle_decoding(bytes) {
            Ok(value) => Ok(value),
            Err(error) => Err(ContactError::InvalidBundle(error)),
        },
    }
}

/// Reads a bundle from a text.
pub fn peer_bundle_from_encoded(encoded: &str) -> (result: Result<SignalPreKeyBundle, ContactError>)
    ensures
        match encoded_bundle(encoded@) {
            Ok(value) => result matches Ok(bundle) && bundle@ == value,
            Err(error) => result == Err::<SignalPreKeyBundle, ContactError>(error),
        },
{
    match BundleTransport.decode(trim(encoded).as_str()) {
        Err(_) => Err(ContactError::InvalidText),
        Ok(bytes) => match SignalPreKeyBundle::decode(bytes.as_slice()) {
            Ok(bundle) => Ok(bundle),
            Err(error) => Err(ContactError::InvalidBundle(error)),
        },
    }
}

/// A text with everything but ASCII letters and digits replaced.
pub open spec fn plain_component(value: Seq<char>) -> Seq<char> {
    value.map_values(
        |character: char|
            if text::is_ascii_alphanumeric(character) {
                character
            } else {
                '_'
            },
    )
}

fn plain_component_text(value: &str) -> (result: String)
    ensures
        result@ == plain_component(value@),
{
    let all = characters(value);
    let mut result = String::new();
    let mut index: usize = 0;
    assert(result@ =~= plain_component(value@).take(0));
    while index < all.len()
        invariant
            index <= all@.len(),
            all@ == value@,
            result@ == plain_component(value@).take(index as int),
        decreases all@.len() - index,
    {
        let character: char = all[index];
        if ascii_alphanumeric(character) {
            result.push(character);
        } else {
            result.push('_');
        }
        assert(result@ =~= plain_component(value@).take(index + 1));
        index += 1;
    }
    assert(plain_component(value@).take(index as int) =~= plain_component(value@));
    result
}

/// The file of a contact, below its profile.
pub open spec fn contact_file(peer: BundleView) -> Seq<char> {
    "peers/"@ + plain_component(signal::address_text(peer.name, peer.device_id)) + ".bundle"@
}

/// A contact whose fingerprint has been compared.
#[derive(Debug)]
pub struct VerifiedContact {
    pub bundle: SignalPreKeyBundle,
    /// Where the contact is kept, below its profile.
    pub file: String,
    /// What the file holds.
    pub contents: String,
    pub name: String,
    /// What the user is told.
    pub status: String,
}

/// Takes a contact whose bundle has the fingerprint that the user was told.
pub fn verify_add_contact(encoded: &str, expected_fingerprint: &str) -> (result: Result<
    VerifiedContact,
    ContactError,
>)
    ensures
        match encoded_bundle(encoded@) {
            Err(error) => result is Err && result->Err_0 == error,
            Ok(value) => if normalized(expected_fingerprint@) == normalized(
                text::hex(value.identity_key),
            ) {
                result matches Ok(contact) && ({
                    &&& contact.bundle@ == value
                    &&& contact.file@ == contact_file(value)
                    &&& contact.contents@ == text::trimmed(encoded@)
                    &&& contact.name@ == value.name
                    &&& contact.status@ == "Verified and added "@ + value.name + "."@
                })
            } else {
                result is Err && result->Err_0 == ContactError::FingerprintMismatch
            },
        },
{
    let bundle = peer_bundle_from_encoded(encoded)?;
    let actual = bundle.fingerprint();
    if !same_text(
        normalize_fingerprint(expected_fingerprint).as_str(),
        normalize_fingerprint(actual.as_str()).as_str(),
    ) {
        return Err(ContactError::FingerprintMismatch);
    }
    let mut file = "peers/".to_owned();
    file.append(plain_component_text(bundle.address().as_str()).as_str());
    file.append(".bundle");
    let mut status = "Verified and added ".to_owned();
    status.append(bundle.name.as_str());
    status.append(".");
    let name = bundle.name.clone();
    Ok(VerifiedContact { bundle, file, contents: trim(encoded), name, status })
}

/// The name of a saved contact, and the text of its bundle.
pub fn load_saved_contact(encoded: &str) -> (result: Result<(String, String), ContactError>)
    ensures
        match encoded_bundle(encoded@) {
            Err(error) => result is Err && result->Err_0 == error,
            Ok(value) => result matches Ok(contact) && contact.0@ == value.name && contact.1@
                == text::trimmed(encoded@),
        },
{
    let bundle = peer_bundle_from_encoded(encoded)?;
    Ok((bundle.name, trim(encoded)))
}

/// A fingerprint stands for one identity: the hexadecimal digits of an identity are
/// their own plain form, so one that matches two identities, however it is written,
/// finds them to be the same.
pub proof fn law_fingerprint_pins_the_identity(expected: Seq<char>, left: Seq<u8>, right: Seq<u8>)
    ensures
        normalized(text::hex(left)) == text::hex(left),
        normalized(expected) == normalized(text::hex(left)) && normalized(expected) == normalized(
            text::hex(right),
        ) ==> left == right,
{
    lemma_hex_is_plain(left);
    lemma_hex_is_plain(right);
    if normalized(expected) == text::hex(left) && normalized(expected) == text::hex(right) {
        text::law_hex_injective(left, right);
    }
}

proof fn lemma_hex_is_plain(bytes: Seq<u8>)
    ensures
        normalized(text::hex(bytes)) == text::hex(bytes),
{
    text::law_hex_digits(bytes);
    let shown = text::hex(bytes);
    assert forall|i: int| 0 <= i < shown.len() implies '0' <= #[trigger] shown[i] <= '9' || 'a'
        <= shown[i] <= 'f' by {
        let at = i / 2;
        assert(bytes[at] == bytes[at]);
        if i % 2 == 0 {
            assert(i == 2 * at);
        } else {
            assert(i == 2 * at + 1);
        }
    }
    lemma_plain(shown);
}

proof fn lemma_plain(value: Seq<char>)
    requires
        forall|i: int|
            0 <= i < value.len() ==> '0' <= #[trigger] value[i] <= '9' || 'a' <= value[i] <= 'f',
    ensures
        normalized(value) == value,
    decreases value.len(),
{
    if value.len() > 0 {
        let front = value.drop_last();
        assert forall|i: int| 0 <= i < front.len() implies '0' <= #[trigger] front[i] <= '9' || 'a'
            <= front[i] <= 'f' by {
            assert(front[i] == value[i]);
        }
        lemma_plain(front);
        let last = value[value.len() - 1];
        assert('0' <= last <= '9' || 'a' <= last <= 'f');
        assert(normalized(value) =~= value);
    } else {
        assert(normalized(value) =~= value);
    }
}

/// The name of a profile is the text without the white space around it, where that names
/// a directory and no way through others.
pub proof fn law_profile_name_is_the_trimmed_text(profile: Seq<char>)
    ensures
        profile_name(profile) is Ok <==> {
            let name = text::trimmed(profile);
            &&& name.len() > 0
            &&& name != "."@
            &&& name != ".."@
            &&& forall|i: int|
                0 <= i < name.len() ==> #[trigger] name[i] != '/' && name[i] != '\\'
        },
        profile_name(profile) matches Ok(name) ==> name == text::trimmed(profile),
{
    let name = text::trimmed(profile);
    if simple_name(name) {
        assert forall|i: int| 0 <= i < name.len() implies #[trigger] name[i] != '/' && name[i]
            != '\\' by {
            assert(name.contains(name[i]));
        }
    }
}

/// The files of a profile are all different: the database, the relay's settings, session
/// and peers, and every conversation.
pub proof fn law_files_of_a_profile_differ(name: Seq<char>, peer: Seq<char>)
    ensures
        profile_path(name, "identity.db"@) != profile_path(name, "relay-config.age"@),
        profile_path(name, "identity.db"@) != profile_path(name, "relay-session.age"@),
        profile_path(name, "identity.db"@) != profile_path(name, "relay-peers.age"@),
        profile_path(name, "relay-config.age"@) != profile_path(name, "relay-session.age"@),
        profile_path(name, "relay-config.age"@) != profile_path(name, "relay-peers.age"@),
        profile_path(name, "relay-session.age"@) != profile_path(name, "relay-peers.age"@),
        profile_path(name, lobby_file(peer)) != profile_path(name, "identity.db"@),
        profile_path(name, lobby_file(peer)) != profile_path(name, "relay-config.age"@),
        profile_path(name, lobby_file(peer)) != profile_path(name, "relay-session.age"@),
        profile_path(name, lobby_file(peer)) != profile_path(name, "relay-peers.age"@),
{
    reveal_strlit("/");
    reveal_strlit("identity.db");
    reveal_strlit("relay-config.age");
    reveal_strlit("relay-session.age");
    reveal_strlit("relay-peers.age");
    reveal_strlit("lobbies/");
    reveal_strlit(".age");
    let at = name.len() as int + 1;
    assert(profile_path(name, "identity.db"@)[at] == 'i');
    assert(profile_path(name, "relay-config.age"@)[at] == 'r');
    assert(profile_path(name, "relay-config.age"@)[at + 6] == 'c');
    assert(profile_path(name, "relay-session.age"@)[at] == 'r');
    assert(profile_path(name, "relay-session.age"@)[at + 6] == 's');
    assert(profile_path(name, "relay-peers.age"@)[at] == 'r');
    assert(profile_path(name, "relay-peers.age"@)[at + 6] == 'p');
    assert(lobby_file(peer)[0] == 'l');
    assert(profile_path(name, lobby_file(peer))[at] == lobby_file(peer)[0]);
}

/// A text holds a bundle where it is Base64, whatever white space stands around it, and
/// the bytes are a bundle, which it then is.
pub proof fn law_encoded_bundle_is_the_bundle(encoded: Seq<char>, bundle: BundleView)
    ensures
        encoded_bundle(encoded) == Ok::<BundleView, ContactError>(bundle) <==> {
            &&& primitives::base64_bytes(text::trimmed(encoded)) matches Some(bytes)
            &&& bundle::bundle_decoding(bytes) is Ok
            &&& bundle::bundle_decoding(bytes)->Ok_0 == bundle
        },
        primitives::base64_bytes(text::trimmed(encoded)) is None ==> encoded_bundle(encoded)
            == Err::<BundleView, ContactError>(ContactError::InvalidText),
{
    text::lemma_trimmed_twice(encoded);
}

/// What may stand between the digits of a fingerprint are blanks, line ends and colons,
/// and nothing else is left out. Every other character counts, an ASCII letter in its
/// small form.
pub proof fn law_fingerprint_letters_count(value: Seq<char>, letter: char)
    ensures
        (letter as u32 == 9 || letter as u32 == 10 || letter as u32 == 12 || letter as u32 == 13
            || letter as u32 == 32 || letter as u32 == 58) ==> normalized(value.push(letter))
            == normalized(value),
        'A' <= letter <= 'Z' ==> normalized(value.push(letter)) == normalized(value).push(
            (letter as u32 + 32) as char,
        ),
        'a' <= letter <= 'z' || '0' <= letter <= '9' ==> normalized(value.push(letter))
            == normalized(value).push(letter),
        letter as u32 >= 128 ==> normalized(value.push(letter)) == normalized(value)
            + unicode_lower(letter),
{
    assert(value.push(letter).drop_last() =~= value);
    if (letter as u32) < 128 {
        let one = seq![text::ascii_lower(letter)];
        assert(normalized(value) + one =~= normalized(value).push(text::ascii_lower(letter)));
    }
}

} // verus!
