//! Sealed profile files: what they hold, and which key opens them.
use vstd::prelude::*;
use vstd::utf8::*;

use crate::history::StoreError;
use crate::json;
use crate::json::{parse_texts, write_texts};
use crate::table::TextTable;
use crate::text;
use crate::text::{trim, utf8_string};

verus! {

/// The bytes that are sealed in an age file under a password.
pub uninterp spec fn sealed_with_password(sealed: Seq<u8>, password: Seq<char>) -> Option<Seq<u8>>;

/// The bytes that are sealed in an age file under a secret key.
pub uninterp spec fn sealed_with_key(sealed: Seq<u8>, key: Seq<char>) -> Option<Seq<u8>>;

/// Whether a text is an age secret key.
pub uninterp spec fn is_secret_key(key: Seq<char>) -> bool;

/// Whether a file holds bytes under a secret key, and nothing under any password.
pub open spec fn is_sealed_history(bytes: Seq<u8>, key: Seq<char>, sealed: Seq<u8>) -> bool {
    &&& sealed_with_key(sealed, key) == Some(bytes)
    &&& forall|password: Seq<char>| #[trigger] sealed_with_password(sealed, password) is None
}

/// Whether a file holds bytes under a password, and nothing under any secret key.
pub open spec fn is_sealed_file(bytes: Seq<u8>, password: Seq<char>, sealed: Seq<u8>) -> bool {
    &&& sealed_with_password(sealed, password) == Some(bytes)
    &&& forall|key: Seq<char>| #[trigger] sealed_with_key(sealed, key) is None
}

/// Wraps `age::decrypt` with an `age::scrypt::Identity`: what comes out is what
/// was sealed under the password. How much work is accepted depends on the
/// machine, so nothing is promised of when the file opens.
#[verifier::external_body]
pub(crate) fn open_with_password(sealed: &[u8], password: &str) -> (opened: Option<Vec<u8>>)
    ensures
        opened matches Some(bytes) ==> sealed_with_password(sealed@, password@) == Some(bytes@),
{
    let secret = age::secrecy::SecretString::from(password.to_owned());
    age::decrypt(&age::scrypt::Identity::new(secret), sealed).ok()
}

/// Wraps `age::encrypt` to an `age::scrypt::Recipient`: the bytes are sealed
/// under the password, and no secret key opens the file, which has no part for one. The
/// file is written to memory, and nothing can fail. What another password makes of the
/// file is left unsaid: two passwords that differ in zero bytes at the end may be one.
#[verifier::external_body]
pub(crate) fn seal_with_password(bytes: &[u8], password: &str) -> (sealed: Option<Vec<u8>>)
    ensures
        sealed is Some,
        is_sealed_file(bytes@, password@, sealed->0@),
{
    let secret = age::secrecy::SecretString::from(password.to_owned());
    age::encrypt(&age::scrypt::Recipient::new(secret), bytes).ok()
}

/// Wraps `FromStr::from_str` of `age::x25519::Identity`: whether the text is a
/// secret key.
#[verifier::external_body]
pub(crate) fn valid_secret_key(key: &str) -> (valid: bool)
    ensures
        valid == is_secret_key(key@),
{
    key.parse::<age::x25519::Identity>().is_ok()
}

/// Wraps `age::decrypt` with an `age::x25519::Identity` that is read from its
/// text.
#[verifier::external_body]
pub(crate) fn open_with_key(sealed: &[u8], key: &str) -> (opened: Option<Vec<u8>>)
    ensures
        match sealed_with_key(sealed@, key@) {
            Some(bytes) => opened matches Some(result) && result@ == bytes,
            None => opened is None,
        },
{
    let identity = key.parse::<age::x25519::Identity>().ok()?;
    age::decrypt(&identity, sealed).ok()
}

/// Wraps `age::encrypt` to the recipient of an `age::x25519::Identity` that is
/// read from its text: where the text is a secret key, the bytes are sealed under it,
/// and no password opens the file, which has no part for one.
#[verifier::external_body]
pub(crate) fn seal_with_key(bytes: &[u8], key: &str) -> (sealed: Option<Vec<u8>>)
    ensures
        sealed is Some <==> is_secret_key(key@),
        sealed matches Some(file) ==> is_sealed_history(bytes@, key@, file@),
{
    let identity = key.parse::<age::x25519::Identity>().ok()?;
    age::encrypt(&identity.to_public(), bytes).ok()
}

/// Wraps `age::x25519::Identity::generate`, given as text: a fresh secret key, which
/// is written in Bech32 and so has no white space around it.
#[verifier::external_body]
pub(crate) fn generate_secret_key() -> (key: String)
    ensures
        is_secret_key(key@),
        text::trimmed(key@) == key@,
{
    let identity = age::x25519::Identity::generate().to_string();
    age::secrecy::ExposeSecret::expose_secret(&identity).to_string()
}

// ---------------------------------------------------------------------------
// Files under the password
// ---------------------------------------------------------------------------

/// Opens a file of the profile.
pub fn decrypt_file(sealed: &[u8], password: &str) -> (result: Result<Vec<u8>, StoreError>)
    ensures
        match result {
            Ok(contents) => sealed_with_password(sealed@, password@) == Some(contents@),
            Err(error) => error == StoreError::Locked,
        },
{
    match open_with_password(sealed, password) {
        Some(contents) => Ok(contents),
        None => Err(StoreError::Locked),
    }
}

/// Seals a file of the profile.
pub fn save_encrypted(password: &str, plaintext: &[u8]) -> (sealed: Option<Vec<u8>>)
    ensures
        sealed is Some,
        is_sealed_file(plaintext@, password@, sealed->0@),
{
    seal_with_password(plaintext, password)
}

/// Opens a file of the profile that need not be there.
fn decrypt_optional(file: Option<&[u8]>, password: &str) -> (result: Result<
    Option<Vec<u8>>,
    StoreError,
>)
    ensures
        optional_contents(file, password, result),
{
    match file {
        None => Ok(None),
        Some(sealed) => {
            let contents = decrypt_file(sealed, password)?;
            Ok(Some(contents))
        },
    }
}

/// What opening a file that need not be there may give: nothing where it is not
/// there, and otherwise what is sealed in it, unless it stays locked.
pub open spec fn optional_contents(
    file: Option<&[u8]>,
    password: &str,
    result: Result<Option<Vec<u8>>, StoreError>,
) -> bool {
    match file {
        None => result == Ok::<Option<Vec<u8>>, StoreError>(None),
        Some(sealed) => match result {
            Ok(contents) => contents is Some && sealed_with_password(sealed@, password@) == Some(
                contents->0@,
            ),
            Err(error) => error == StoreError::Locked,
        },
    }
}

/// Opens the relay settings of the profile, if it has any.
pub fn load_relay_config(file: Option<&[u8]>, password: &str) -> (result: Result<
    Option<Vec<u8>>,
    StoreError,
>)
    ensures
        optional_contents(file, password, result),
{
    decrypt_optional(file, password)
}

/// Seals the relay settings of the profile.
pub fn save_relay_config(password: &str, contents: &[u8]) -> (sealed: Option<Vec<u8>>)
    ensures
        sealed is Some,
        is_sealed_file(contents@, password@, sealed->0@),
{
    save_encrypted(password, contents)
}

/// Reads the relay identifiers of the peers. What was written of some is read as them.
pub fn relay_peer_ids(contents: &[u8]) -> (result: Option<TextTable<String>>)
    ensures
        match json::json_texts(contents@) {
            None => result is None,
            Some(texts) => result matches Some(ids) && ids.wf() && json::texts_of(ids) == texts,
        },
        json::reads_back(contents@, result),
{
    parse_texts(contents)
}

/// What opening the relay identifiers of the peers may give: none where there is no
/// file, and otherwise those in it, unless it stays locked.
pub open spec fn opened_peer_ids(
    file: Option<&[u8]>,
    password: Seq<char>,
    result: Result<TextTable<String>, StoreError>,
) -> bool {
    match file {
        None => result matches Ok(ids) && ids.wf() && json::texts_of(ids) == Map::<
            Seq<char>,
            Seq<char>,
        >::empty(),
        Some(sealed) => match result {
            Ok(ids) => {
                &&& ids.wf()
                &&& sealed_with_password(sealed@, password) matches Some(contents)
                &&& json::json_texts(contents) == Some(json::texts_of(ids))
            },
            Err(error) => {
                ||| error == StoreError::Locked
                ||| error == StoreError::InvalidPeerIds && (sealed_with_password(sealed@, password)
                    matches Some(contents) && json::json_texts(contents) is None)
            },
        },
    }
}

/// Whether a file holds the relay identifiers of some peers.
pub open spec fn holds_peer_ids(
    sealed: Seq<u8>,
    password: Seq<char>,
    ids: Map<Seq<char>, Seq<char>>,
) -> bool {
    exists|object: Seq<char>| #[trigger]
        json::is_text_object(object, ids) && sealed_with_password(sealed, password) == Some(
            encode_utf8(object),
        )
}

/// Opens the relay identifiers of the peers, if any were saved. Those that were saved
/// are those that are loaded, unless the file stays locked.
pub fn load_relay_peer_ids(file: Option<&[u8]>, password: &str) -> (result: Result<
    TextTable<String>,
    StoreError,
>)
    ensures
        opened_peer_ids(file, password@, result),
        file matches Some(sealed) ==> forall|ids: Map<Seq<char>, Seq<char>>| #[trigger]
            holds_peer_ids(sealed@, password@, ids) ==> match result {
                Ok(found) => json::texts_of(found) == ids,
                Err(error) => error == StoreError::Locked,
            },
{
    match decrypt_optional(file, password)? {
        None => {
            let none = TextTable::<String>::new();
            assert(json::texts_of(none) =~= Map::<Seq<char>, Seq<char>>::empty());
            Ok(none)
        },
        Some(contents) => match relay_peer_ids(contents.as_slice()) {
            Some(ids) => Ok(ids),
            None => Err(StoreError::InvalidPeerIds),
        },
    }
}

/// Seals the relay identifiers of the peers.
pub fn save_relay_peer_ids(password: &str, ids: &TextTable<String>) -> (sealed: Option<Vec<u8>>)
    requires
        ids.wf(),
    ensures
        sealed is Some,
        holds_peer_ids(sealed->0@, password@, json::texts_of(*ids)),
{
    let object = write_texts(ids);
    let sealed = save_encrypted(password, object.as_str().as_bytes());
    assert(json::is_text_object(object@, json::texts_of(*ids)));
    sealed
}

/// Seals the contents of a history file under the password itself.
pub fn save_history(password: &str, contents: &[u8]) -> (sealed: Option<Vec<u8>>)
    ensures
        sealed is Some,
        is_sealed_file(contents@, password@, sealed->0@),
{
    save_encrypted(password, contents)
}

/// A file under the password that opens gives back what was sealed in it, and
/// one password never opens a file to two different contents.
pub proof fn law_saved_file_reopens(
    sealed: &[u8],
    password: &str,
    contents: Seq<u8>,
    result: Result<Option<Vec<u8>>, StoreError>,
)
    requires
        sealed_with_password(sealed@, password@) == Some(contents),
        optional_contents(Some(sealed), password, result),
    ensures
        result matches Ok(opened) ==> opened is Some && opened->0@ == contents,
{
}

// ---------------------------------------------------------------------------
// The relay session
// ---------------------------------------------------------------------------

/// The access token in the contents of a relay session file.
pub open spec fn token_in(contents: Seq<u8>) -> Result<Seq<char>, StoreError> {
    if !valid_utf8(contents) {
        Err(StoreError::NotUtf8)
    } else if text::trimmed(decode_utf8(contents)).len() == 0 {
        Err(StoreError::EmptyRelaySession)
    } else {
        Ok(text::trimmed(decode_utf8(contents)))
    }
}

/// Reads the access token from the contents of a relay session file.
pub fn relay_token(contents: Vec<u8>) -> (result: Result<String, StoreError>)
    ensures
        match token_in(contents@) {
            Ok(value) => result matches Ok(token) && token@ == value,
            Err(error) => result == Err::<String, StoreError>(error),
        },
{
    match utf8_string(contents) {
        None => Err(StoreError::NotUtf8),
        Some(contents) => {
            let token = trim(contents.as_str());
            if token.as_str().is_empty() {
                return Err(StoreError::EmptyRelaySession);
            }
            Ok(token)
        },
    }
}

/// The access token that is sealed in a relay session file.
pub open spec fn sealed_token(sealed: Seq<u8>, password: Seq<char>) -> Result<
    Seq<char>,
    StoreError,
> {
    match sealed_with_password(sealed, password) {
        Some(contents) => token_in(contents),
        None => Err(StoreError::Locked),
    }
}

/// What opening a relay session file may give: the token that is sealed in it, unless
/// there is none or the file stays locked.
pub open spec fn opened_token(
    sealed: Seq<u8>,
    password: Seq<char>,
    result: Result<String, StoreError>,
) -> bool {
    match result {
        Ok(token) => sealed_token(sealed, password) == Ok::<Seq<char>, StoreError>(token@),
        Err(error) => error == StoreError::Locked || sealed_token(sealed, password) == Err::<
            Seq<char>,
            StoreError,
        >(error),
    }
}

/// Opens a relay session file.
pub fn load_relay_token(sealed: &[u8], password: &str) -> (result: Result<String, StoreError>)
    ensures
        opened_token(sealed@, password@, result),
{
    match open_with_password(sealed, password) {
        None => Err(StoreError::Locked),
        Some(contents) => relay_token(contents),
    }
}

/// Seals a relay session file.
pub fn save_relay_token(password: &str, token: &str) -> (sealed: Option<Vec<u8>>)
    ensures
        sealed is Some,
        is_sealed_file(encode_utf8(token@), password@, sealed->0@),
{
    seal_with_password(token.as_bytes(), password)
}

/// A saved token that is not blank is the one that is loaded, without the white
/// space around it.
pub proof fn law_relay_token_round_trip(token: Seq<char>)
    requires
        text::trimmed(token).len() > 0,
    ensures
        token_in(encode_utf8(token)) == Ok::<Seq<char>, StoreError>(text::trimmed(token)),
{
    encode_utf8_valid_utf8(token);
    encode_utf8_decode_utf8(token);
}

/// A relay session file that was saved opens to the token, without the white space
/// around it, and to nothing else. A blank token is refused when it is loaded. A
/// password that opens nothing of the file gets no token.
pub proof fn law_saved_token_is_loaded(
    token: Seq<char>,
    password: Seq<char>,
    sealed: Seq<u8>,
    loaded: Result<String, StoreError>,
    other: Seq<char>,
    refused: Result<String, StoreError>,
)
    requires
        is_sealed_file(encode_utf8(token), password, sealed),
        opened_token(sealed, password, loaded),
        sealed_with_password(sealed, other) is None,
        opened_token(sealed, other, refused),
    ensures
        loaded matches Ok(found) ==> text::trimmed(token).len() > 0 && found@ == text::trimmed(
            token,
        ),
        loaded matches Err(error) ==> error == StoreError::Locked || (text::trimmed(token).len()
            == 0 && error == StoreError::EmptyRelaySession),
        refused == Err::<String, StoreError>(StoreError::Locked),
{
    encode_utf8_valid_utf8(token);
    encode_utf8_decode_utf8(token);
}

// ---------------------------------------------------------------------------
// History files
// ---------------------------------------------------------------------------

/// The secret key in the contents of a key file.
pub open spec fn key_in(contents: Seq<u8>) -> Result<Seq<char>, StoreError> {
    if !valid_utf8(contents) {
        Err(StoreError::NotUtf8)
    } else if !is_secret_key(text::trimmed(decode_utf8(contents))) {
        Err(StoreError::InvalidHistoryKey)
    } else {
        Ok(text::trimmed(decode_utf8(contents)))
    }
}

/// Reads the secret key from the contents of a key file.
pub fn history_key(contents: Vec<u8>) -> (result: Result<String, StoreError>)
    ensures
        match key_in(contents@) {
            Ok(value) => result matches Ok(key) && key@ == value,
            Err(error) => result == Err::<String, StoreError>(error),
        },
{
    match utf8_string(contents) {
        None => Err(StoreError::NotUtf8),
        Some(contents) => {
            let key = trim(contents.as_str());
            if !valid_secret_key(key.as_str()) {
                return Err(StoreError::InvalidHistoryKey);
            }
            Ok(key)
        },
    }
}

/// The secret key that is sealed in a key file.
pub open spec fn sealed_key(sealed: Seq<u8>, password: Seq<char>) -> Result<Seq<char>, StoreError> {
    match sealed_with_password(sealed, password) {
        Some(contents) => key_in(contents),
        None => Err(StoreError::Locked),
    }
}

/// Which contents a history file has, given what the password opened: the file
/// itself, or the key file beside it and with that key the history.
pub open spec fn history_contents(
    by_password: Option<Seq<u8>>,
    key_file: Option<Option<Seq<u8>>>,
    sealed: Seq<u8>,
) -> Result<Seq<u8>, StoreError> {
    match by_password {
        Some(contents) => Ok(contents),
        None => match key_file {
            None => Err(StoreError::Locked),
            Some(None) => Err(StoreError::Locked),
            Some(Some(key_contents)) => match key_in(key_contents) {
                Err(error) => Err(error),
                Ok(key) => match sealed_with_key(sealed, key) {
                    Some(contents) => Ok(contents),
                    None => Err(StoreError::Locked),
                },
            },
        },
    }
}

/// The bytes behind an optional vector.
pub open spec fn optional_bytes(value: Option<Vec<u8>>) -> Option<Seq<u8>> {
    match value {
        Some(bytes) => Some(bytes@),
        None => None,
    }
}

/// Opens a history file, given what the password opened of it and of the key
/// file beside it.
pub fn decrypt_history(
    sealed: &[u8],
    by_password: Option<Vec<u8>>,
    key_file: Option<Option<Vec<u8>>>,
) -> (result: Result<Vec<u8>, StoreError>)
    ensures
        match history_contents(
            optional_bytes(by_password),
            match key_file {
                Some(opened) => Some(optional_bytes(opened)),
                None => None,
            },
            sealed@,
        ) {
            Ok(value) => result matches Ok(contents) && contents@ == value,
            Err(error) => result == Err::<Vec<u8>, StoreError>(error),
        },
{
    match by_password {
        Some(contents) => Ok(contents),
        None => match key_file {
            Some(Some(key_contents)) => {
                let key = history_key(key_contents)?;
                match open_with_key(sealed, key.as_str()) {
                    Some(contents) => Ok(contents),
                    None => Err(StoreError::Locked),
                }
            },
            _ => Err(StoreError::Locked),
        },
    }
}

/// What opening a history file may give: what is sealed in it under the password, or
/// under the key in the key file beside it, unless one of them stays locked.
pub open spec fn opened_history(
    sealed: Seq<u8>,
    password: Seq<char>,
    key_file: Option<&[u8]>,
    result: Result<Vec<u8>, StoreError>,
) -> bool {
    match result {
        Ok(contents) => {
            ||| sealed_with_password(sealed, password) == Some(contents@)
            ||| key_file matches Some(file) && sealed_key(file@, password) matches Ok(key)
                && sealed_with_key(sealed, key) == Some(contents@)
        },
        Err(error) => {
            ||| error == StoreError::Locked
            ||| key_file matches Some(file) && sealed_key(file@, password) == Err::<
                Seq<char>,
                StoreError,
            >(error)
        },
    }
}

/// Opens a history file with the password, or with the key that the password
/// opens in the key file beside it.
pub fn decrypt_history_file(sealed: &[u8], password: &str, key_file: Option<&[u8]>) -> (result:
    Result<Vec<u8>, StoreError>)
    ensures
        opened_history(sealed@, password@, key_file, result),
{
    match open_with_password(sealed, password) {
        Some(contents) => Ok(contents),
        None => {
            let opened = match key_file {
                None => None,
                Some(file) => Some(open_with_password(file, password)),
            };
            decrypt_history(sealed, None, opened)
        },
    }
}

/// What opening the key file of a profile may give: where there is none, a new key
/// and the file to put there; where there is one, its key, unless it stays locked.
pub open spec fn opened_identity(
    key_file: Option<&[u8]>,
    password: Seq<char>,
    result: Result<(String, Option<Vec<u8>>), StoreError>,
) -> bool {
    match key_file {
        None => result matches Ok((key, to_save)) && is_secret_key(key@) && text::trimmed(key@)
            == key@ && to_save is Some && sealed_with_password(to_save->0@, password) == Some(
            encode_utf8(key@),
        ),
        Some(file) => match result {
            Ok((key, to_save)) => {
                &&& to_save is None
                &&& is_secret_key(key@)
                &&& text::trimmed(key@) == key@
                &&& sealed_key(file@, password) == Ok::<Seq<char>, StoreError>(key@)
            },
            Err(error) => {
                ||| error == StoreError::Locked
                ||| sealed_key(file@, password) == Err::<Seq<char>, StoreError>(error)
            },
        },
    }
}

/// Opens the key file of a profile, or makes the key that is to be put there.
pub fn load_or_create_history_identity(key_file: Option<&[u8]>, password: &str) -> (result: Result<
    (String, Option<Vec<u8>>),
    StoreError,
>)
    ensures
        opened_identity(key_file, password@, result),
{
    match key_file {
        Some(file) => match open_with_password(file, password) {
            None => Err(StoreError::Locked),
            Some(contents) => {
                proof {
                    text::lemma_trimmed_twice(decode_utf8(contents@));
                }
                let key = history_key(contents)?;
                Ok((key, None))
            },
        },
        None => {
            let key = generate_secret_key();
            match seal_with_password(key.as_str().as_bytes(), password) {
                None => Err(StoreError::Locked),
                Some(sealed) => Ok((key, Some(sealed))),
            }
        },
    }
}

/// Seals the contents of a history file under the key of the profile.
pub fn save_history_with_identity(contents: &[u8], key: &str) -> (sealed: Option<Vec<u8>>)
    ensures
        sealed is Some <==> is_secret_key(key@),
        sealed matches Some(file) ==> is_sealed_history(contents@, key@, file@),
{
    seal_with_key(contents, key)
}

/// A history that was sealed under the profile key is what opens again: when the
/// key file opens to that key and the password does not open the history itself,
/// the contents are the saved ones.
pub proof fn law_history_round_trip(
    contents: Seq<u8>,
    sealed: Seq<u8>,
    key: Seq<char>,
    key_contents: Seq<u8>,
)
    requires
        sealed_with_key(sealed, key) == Some(contents),
        key_in(key_contents) == Ok::<Seq<char>, StoreError>(key),
    ensures
        history_contents(None, Some(Some(key_contents)), sealed) == Ok::<Seq<u8>, StoreError>(
            contents,
        ),
{
}

/// A history that was saved under a password opens with it to what was saved and to
/// nothing else, whatever key file stands beside it. A password that opens nothing of
/// the history gets nothing.
pub proof fn law_password_history_reopens(
    contents: Seq<u8>,
    password: Seq<char>,
    sealed: Seq<u8>,
    key_file: Option<&[u8]>,
    opened: Result<Vec<u8>, StoreError>,
    other: Seq<char>,
    refused: Result<Vec<u8>, StoreError>,
)
    requires
        is_sealed_file(contents, password, sealed),
        opened_history(sealed, password, key_file, opened),
        sealed_with_password(sealed, other) is None,
        opened_history(sealed, other, key_file, refused),
    ensures
        opened matches Ok(bytes) ==> bytes@ == contents,
        refused is Err,
{
}

/// A new profile keeps its histories. The key file that was made for it opens to the
/// key that was made, and is never replaced. Every history that was saved under that
/// key opens with the password, through that file, to what was saved, unless the
/// machine refuses the work and the file stays locked.
pub proof fn law_new_profile_keeps_its_histories(
    password: Seq<char>,
    made: Result<(String, Option<Vec<u8>>), StoreError>,
    key_file: &[u8],
    reopened: Result<(String, Option<Vec<u8>>), StoreError>,
    contents: Seq<u8>,
    sealed: Seq<u8>,
    opened: Result<Vec<u8>, StoreError>,
)
    requires
        opened_identity(None, password, made),
        (made->Ok_0).1->0@ == key_file@,
        opened_identity(Some(key_file), password, reopened),
        is_sealed_history(contents, (made->Ok_0).0@, sealed),
        opened_history(sealed, password, Some(key_file), opened),
    ensures
        made is Ok,
        reopened == Err::<(String, Option<Vec<u8>>), StoreError>(StoreError::Locked) || (reopened
            matches Ok((key, to_save)) && key@ == (made->Ok_0).0@ && to_save is None),
        opened == Err::<Vec<u8>, StoreError>(StoreError::Locked) || (opened matches Ok(bytes)
            && bytes@ == contents),
        history_contents(None, Some(sealed_with_password(key_file@, password)), sealed) == Ok::<
            Seq<u8>,
            StoreError,
        >(contents),
{
    let key = (made->Ok_0).0@;
    encode_utf8_valid_utf8(key);
    encode_utf8_decode_utf8(key);
    assert(sealed_key(key_file@, password) == Ok::<Seq<char>, StoreError>(key));
    assert(sealed_with_password(sealed, password) is None);
}

/// A history that the password opens needs no key. Where the password does not open
/// it, it takes the key, and stays locked without one.
pub proof fn law_history_is_opened_by_password_or_key(
    contents: Seq<u8>,
    key_file: Option<Option<Seq<u8>>>,
    key: Seq<char>,
    sealed: Seq<u8>,
)
    requires
        is_secret_key(key),
        text::trimmed(key) == key,
    ensures
        history_contents(Some(contents), key_file, sealed) == Ok::<Seq<u8>, StoreError>(contents),
        history_contents(None, None, sealed) == Err::<Seq<u8>, StoreError>(StoreError::Locked),
        history_contents(None, Some(None), sealed) == Err::<Seq<u8>, StoreError>(
            StoreError::Locked,
        ),
        match sealed_with_key(sealed, key) {
            Some(held) => history_contents(None, Some(Some(encode_utf8(key))), sealed) == Ok::<
                Seq<u8>,
                StoreError,
            >(held),
            None => history_contents(None, Some(Some(encode_utf8(key))), sealed) == Err::<
                Seq<u8>,
                StoreError,
            >(StoreError::Locked),
        },
{
    encode_utf8_valid_utf8(key);
    encode_utf8_decode_utf8(key);
}

/// A key is taken as it is written, without the white space around it, and what is no
/// key is refused.
pub proof fn law_key_is_taken_as_written(written: Seq<char>, contents: Seq<u8>)
    ensures
        is_secret_key(text::trimmed(written)) ==> key_in(encode_utf8(written)) == Ok::<
            Seq<char>,
            StoreError,
        >(text::trimmed(written)),
        !is_secret_key(text::trimmed(written)) ==> key_in(encode_utf8(written)) == Err::<
            Seq<char>,
            StoreError,
        >(StoreError::InvalidHistoryKey),
        !valid_utf8(contents) ==> key_in(contents) == Err::<Seq<char>, StoreError>(
            StoreError::NotUtf8,
        ) && token_in(contents) == Err::<Seq<char>, StoreError>(StoreError::NotUtf8),
{
    encode_utf8_valid_utf8(written);
    encode_utf8_decode_utf8(written);
}

/// A token of nothing but white space is none.
pub proof fn law_blank_token_is_none(written: Seq<char>)
    requires
        forall|i: int| 0 <= i < written.len() ==> text::is_white_space(#[trigger] written[i]),
    ensures
        token_in(encode_utf8(written)) == Err::<Seq<char>, StoreError>(
            StoreError::EmptyRelaySession,
        ),
{
    encode_utf8_valid_utf8(written);
    encode_utf8_decode_utf8(written);
    let start = text::law_trimming_takes_white_space(written);
    if text::trimmed(written).len() > 0 {
        assert(text::trimmed(written)[0] == written[start]);
    }
}

} // verus!
