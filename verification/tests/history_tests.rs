use safechat::history::{
    load_history, path_for, HistoryEntry, HistoryFile, HistoryStore, RelayConfig, StoreError,
    PROFILE_VERSION,
};
use safechat::preferences::{load_profile_language, save_profile_language, PreferenceError};
use safechat::table::TextTable;
use safechat::vault::{
    decrypt_file, decrypt_history, decrypt_history_file, history_key, load_or_create_history_identity,
    load_relay_config, load_relay_peer_ids, load_relay_token, relay_token, save_encrypted,
    relay_peer_ids, save_history, save_history_with_identity, save_relay_config,
    save_relay_peer_ids, save_relay_token,
};

fn entry(index: u64) -> HistoryEntry {
    HistoryEntry::new(index, "peer".to_owned(), format!("message {index}"))
        .with_message_id(format!("id-{index}"))
        .with_peer("peer".to_owned())
        .with_delivery_status("received".to_owned())
}

struct MemoryStore {
    saves: Vec<HistoryFile>,
}

impl HistoryStore for MemoryStore {
    fn load(&mut self, _conversation: &str) -> Result<HistoryFile, StoreError> {
        load_history(self.saves.last().cloned())
    }

    fn save(&mut self, _conversation: &str, history: &HistoryFile) -> Result<(), StoreError> {
        self.saves.push(history.clone());
        Ok(())
    }
}

#[test]
fn stored_histories_are_read_in_pages() {
    let mut store = MemoryStore { saves: Vec::new() };
    let history = HistoryFile::new((0..3).map(entry).collect()).with_transport_cursor(9);
    store.save("peer", &history).expect("save history");
    let page = store.load_page("peer", None, 2).expect("load newest page");
    assert_eq!(page.entries.len(), 2);
    assert_eq!(page.entries[0].text, "message 1");
    assert_eq!(page.cursor, 1);
    assert!(page.has_more);
    assert_eq!(page.transport_cursor, 9);

    let older = store.load_page("peer", Some(page.cursor), 2).unwrap();
    assert_eq!(older.entries.len(), 1);
    assert_eq!(older.entries[0].text, "message 0");
    assert!(!older.has_more);

    let non_empty_page = store
        .load_page("peer", None, 0)
        .expect("zero-sized request must still make progress");
    assert_eq!(non_empty_page.entries.len(), 1);

    store.delete("peer").unwrap();
    assert!(store.load("peer").unwrap().entries.is_empty());
}

#[test]
fn only_the_current_history_version_is_read() {
    assert!(load_history(None).unwrap().entries.is_empty());
    let current = HistoryFile::new(vec![entry(1)]);
    assert_eq!(current.version, PROFILE_VERSION);
    assert_eq!(load_history(Some(current.clone())).unwrap().entries.len(), 1);
    let other = HistoryFile {
        version: 2,
        ..current
    };
    assert_eq!(
        load_history(Some(other)).unwrap_err(),
        StoreError::UnsupportedHistoryVersion
    );
}

#[test]
fn history_files_have_plain_names() {
    assert_eq!(path_for("bob.1"), "bob_1.age");
    assert_eq!(path_for("a-b_C9"), "a-b_C9.age");
    assert_eq!(path_for("../é"), "____.age");
}

#[test]
fn relay_settings_default_to_https() {
    let config = RelayConfig::new("https://relay".to_owned(), "secret".to_owned());
    assert!(!config.allow_insecure_http);
    assert_eq!(config.base_url, "https://relay");
    assert_eq!(config.enrollment_secret, "secret");
    assert!(config.with_insecure_http(true).allow_insecure_http);
}

#[test]
fn a_file_opens_with_its_password_alone() {
    let sealed = save_encrypted("password", b"settings").unwrap();
    assert_ne!(sealed, b"settings");
    assert_eq!(decrypt_file(&sealed, "password").unwrap(), b"settings");
    assert_eq!(
        decrypt_file(&sealed, "other").unwrap_err(),
        StoreError::Locked
    );
    assert_eq!(
        decrypt_file(b"settings", "password").unwrap_err(),
        StoreError::Locked
    );
}

#[test]
fn relay_files_need_not_exist() {
    assert_eq!(load_relay_config(None, "password").unwrap(), None);
    assert!(load_relay_peer_ids(None, "password").unwrap().rows.is_empty());
    let config = save_relay_config("password", b"{}").unwrap();
    assert_eq!(
        load_relay_config(Some(&config), "password").unwrap(),
        Some(b"{}".to_vec())
    );
}

#[test]
fn relay_peer_ids_are_read_back() {
    let mut ids = TextTable::new();
    ids.put("bob.1", "client \"b\" \\ \n\u{1}\u{e9}".to_owned());
    ids.put("alice.1", "client-a".to_owned());
    let sealed = save_relay_peer_ids("password", &ids).unwrap();
    let opened = load_relay_peer_ids(Some(&sealed), "password").unwrap();
    assert_eq!(opened.rows.len(), 2);
    assert_eq!(opened.get("bob.1"), ids.get("bob.1"));
    assert_eq!(opened.get("alice.1"), ids.get("alice.1"));
    assert_eq!(
        load_relay_peer_ids(Some(&sealed), "other").unwrap_err(),
        StoreError::Locked
    );
    let broken = save_encrypted("password", b"[]").unwrap();
    assert_eq!(
        load_relay_peer_ids(Some(&broken), "password").unwrap_err(),
        StoreError::InvalidPeerIds
    );
    assert!(relay_peer_ids(b"{\"bob.1\":7}").is_none());
    assert_eq!(
        relay_peer_ids(b" {\"bob.1\" : \"x\"} ").unwrap().get("bob.1"),
        Some(&"x".to_owned())
    );
}

#[test]
fn a_new_profile_keeps_its_histories() {
    let (key, file) = load_or_create_history_identity(None, "password").unwrap();
    let file = file.unwrap();
    assert_eq!(key.trim(), key);
    let alice = save_history_with_identity(b"alice", &key).unwrap();
    let bob = save_history_with_identity(b"bob", &key).unwrap();
    let (again, to_save) = load_or_create_history_identity(Some(&file), "password").unwrap();
    assert_eq!(again, key);
    assert!(to_save.is_none());
    assert!(load_or_create_history_identity(Some(&file), "other").is_err());
    let open = |sealed: &[u8]| decrypt_history_file(sealed, "password", Some(&file)).unwrap();
    assert_eq!(open(&alice), b"alice");
    assert_eq!(open(&bob), b"bob");
    assert!(save_history_with_identity(b"alice", "no key").is_none());
    assert_eq!(
        decrypt_file(&alice, "password").unwrap_err(),
        StoreError::Locked
    );
}

#[test]
fn the_language_of_a_profile_is_kept() {
    assert_eq!(load_profile_language(None), Ok(None));
    let saved = save_profile_language(None, "de").unwrap();
    assert_eq!(saved, "{\"language\":\"de\"}");
    assert_eq!(load_profile_language(Some(&saved)), Ok(Some("de".to_owned())));
    let other = "{\"theme\":{\"dark\":true},\"language\":\"de\"}";
    let saved = save_profile_language(Some(other), "a\"b").unwrap();
    assert_eq!(load_profile_language(Some(&saved)), Ok(Some("a\"b".to_owned())));
    assert!(saved.contains("\"theme\":{\"dark\":true}"));
    assert_eq!(load_profile_language(Some("{\"language\":7}")), Ok(None));
    assert_eq!(load_profile_language(Some("[1]")), Ok(None));
    assert_eq!(
        save_profile_language(Some("[1]"), "fr").unwrap(),
        "{\"language\":\"fr\"}"
    );
    assert_eq!(
        load_profile_language(Some("{")),
        Err(PreferenceError::NotJson)
    );
    assert_eq!(
        save_profile_language(Some("{"), "fr"),
        Err(PreferenceError::NotJson)
    );
}

#[test]
fn other_preferences_are_read_back_as_they_were() {
    let file = "{ \"sizes\": [-9223372036854775808, 18446744073709551615, null],\n  \"a\": {\"b\": [], \"c\": {}}, \"on\": false }";
    let saved = save_profile_language(Some(file), "de").unwrap();
    assert!(saved.contains("\"sizes\":[-9223372036854775808,18446744073709551615,null]"));
    assert!(saved.contains("\"a\":{\"b\":[],\"c\":{}}"));
    assert!(saved.contains("\"on\":false"));
    assert_eq!(load_profile_language(Some(&saved)), Ok(Some("de".to_owned())));
    let again = save_profile_language(Some(&saved), "en").unwrap();
    assert!(again.contains("\"sizes\":[-9223372036854775808,18446744073709551615,null]"));
    assert_eq!(load_profile_language(Some(&again)), Ok(Some("en".to_owned())));

    let scaled = save_profile_language(Some("{\"scale\":1.25e3}"), "fr").unwrap();
    assert_eq!(load_profile_language(Some(&scaled)), Ok(Some("fr".to_owned())));

    let nested = |depth: usize| {
        format!("{{\"deep\":{}{}}}", "[".repeat(depth), "]".repeat(depth))
    };
    let saved = save_profile_language(Some(&nested(126)), "it").unwrap();
    assert_eq!(load_profile_language(Some(&saved)), Ok(Some("it".to_owned())));
    assert_eq!(
        save_profile_language(Some(&nested(127)), "it"),
        Err(PreferenceError::NotJson)
    );
}

#[test]
fn a_saved_token_opens_with_its_password_alone() {
    let sealed = save_relay_token("password", " token ").unwrap();
    assert_eq!(
        load_relay_token(&sealed, "another").unwrap_err(),
        StoreError::Locked
    );
    let blank = save_relay_token("password", " \t").unwrap();
    assert_eq!(
        load_relay_token(&blank, "password").unwrap_err(),
        StoreError::EmptyRelaySession
    );
}

#[test]
fn a_history_under_a_password_opens_with_it_alone() {
    let (key, file) = load_or_create_history_identity(None, "password").unwrap();
    let file = file.unwrap();
    let sealed = save_history("password", b"entries").unwrap();
    assert_eq!(
        decrypt_history_file(&sealed, "password", Some(&file)).unwrap(),
        b"entries"
    );
    assert!(decrypt_history_file(&sealed, "another", Some(&file)).is_err());
    assert_eq!(
        decrypt_history(&sealed, None, Some(Some(key.into_bytes()))).unwrap_err(),
        StoreError::Locked
    );
}

#[test]
fn relay_tokens_are_trimmed_and_never_empty() {
    let sealed = save_relay_token("password", " token \n").unwrap();
    assert_eq!(load_relay_token(&sealed, "password").unwrap(), "token");
    assert_eq!(
        relay_token(b" \n".to_vec()).unwrap_err(),
        StoreError::EmptyRelaySession
    );
    assert_eq!(
        relay_token(vec![0xff]).unwrap_err(),
        StoreError::NotUtf8
    );
}

#[test]
fn histories_open_with_the_profile_key() {
    let (key, file) = load_or_create_history_identity(None, "password").unwrap();
    let file = file.expect("a fresh key is to be saved");
    assert!(key.starts_with("AGE-SECRET-KEY-1"));
    let (again, nothing) = load_or_create_history_identity(Some(&file), "password").unwrap();
    assert_eq!(again, key);
    assert!(nothing.is_none());

    let sealed = save_history_with_identity(b"history", &key).unwrap();
    assert_ne!(sealed, b"history");
    assert_eq!(
        decrypt_history_file(&sealed, "password", Some(&file)).unwrap(),
        b"history"
    );
    assert_eq!(
        decrypt_history_file(&sealed, "wrong", Some(&file)).unwrap_err(),
        StoreError::Locked
    );
    assert_eq!(
        decrypt_history_file(&sealed, "password", None).unwrap_err(),
        StoreError::Locked
    );
}

#[test]
fn histories_under_the_password_still_open() {
    let sealed = save_history("password", b"older history").unwrap();
    assert_eq!(
        decrypt_history_file(&sealed, "password", None).unwrap(),
        b"older history"
    );
}

#[test]
fn a_history_key_must_be_an_age_key() {
    assert_eq!(
        history_key(b"not a key".to_vec()).unwrap_err(),
        StoreError::InvalidHistoryKey
    );
    assert_eq!(history_key(vec![0xff]).unwrap_err(), StoreError::NotUtf8);
    assert_eq!(
        decrypt_history(b"", None, Some(Some(b"not a key".to_vec()))).unwrap_err(),
        StoreError::InvalidHistoryKey
    );
    assert_eq!(
        decrypt_history(b"", Some(b"plain".to_vec()), None).unwrap(),
        b"plain"
    );
}
