use safechat::bundle::SignalPreKeyBundle;
use safechat::command::{
    bundle_output, envelope_input, envelope_output, read_bundle_bytes, trusted_bundle,
    CommandError,
};
use safechat::primitives::{b64, b64decode, decode_base64, hash};
use safechat::profile::{
    chat_history_file, chat_paths, confirm_password, initialize_profile, load_saved_contact,
    normalize_fingerprint, peer_bundle_from_encoded, profile_database, profile_directory,
    validate_profile_name, verify_add_contact, ContactError, ProfileError,
};
use safechat::signal::SignalError;

fn bundle() -> SignalPreKeyBundle {
    SignalPreKeyBundle {
        name: "bob".to_owned(),
        device_id: 2,
        registration_id: 1,
        pre_key: None,
        signed_pre_key_id: 1,
        signed_pre_key_public: vec![1],
        signed_pre_key_signature: vec![2],
        kyber_pre_key_id: 1,
        kyber_pre_key_public: vec![3],
        kyber_pre_key_signature: vec![4],
        identity_key: vec![0x05, 0xab, 0xcd],
    }
}

#[test]
fn profile_names_are_trimmed_without_becoming_paths() {
    assert_eq!(validate_profile_name("  alice  ").unwrap(), "alice");
}

#[test]
fn profile_names_reject_empty_and_path_like_values() {
    for value in ["", "   ", ".", "..", "alice/bob", r"alice\bob"] {
        assert!(validate_profile_name(value).is_err(), "accepted {value:?}");
    }
}

#[test]
fn fingerprint_normalization_accepts_display_separators() {
    assert_eq!(normalize_fingerprint("AA:bb cc"), "aabbcc");
}

#[test]
fn fingerprints_are_lowered_by_unicode_rules() {
    assert_eq!(normalize_fingerprint("\u{c9}: \u{130}"), "\u{e9}i\u{307}");
}

#[test]
fn profile_files_stay_below_the_profile() {
    assert_eq!(profile_directory(" alice ").unwrap(), "alice");
    assert_eq!(profile_database("alice").unwrap(), "alice/identity.db");
    assert_ne!(
        profile_database("alice").unwrap(),
        profile_database("bob").unwrap()
    );
    assert_eq!(
        chat_history_file("alice", "../bob.1").unwrap(),
        "alice/lobbies/___bob_1.age"
    );
    let paths = chat_paths("alice").unwrap();
    assert_eq!(paths.relay_config, "alice/relay-config.age");
    assert_eq!(paths.relay_session, "alice/relay-session.age");
    assert_eq!(paths.relay_peers, "alice/relay-peers.age");
    assert_eq!(paths.lobbies, "alice/lobbies");
    assert!(profile_database("..").is_err());
}

#[test]
fn profiles_need_a_password() {
    assert_eq!(
        initialize_profile("alice", "").unwrap_err(),
        ProfileError::EmptyPassword
    );
    assert_eq!(
        initialize_profile(".", "secret").unwrap_err(),
        ProfileError::InvalidName
    );
    assert_eq!(
        initialize_profile("alice", "secret").unwrap(),
        "alice/identity.db"
    );
    assert_eq!(
        confirm_password(false, "a", "b").unwrap_err(),
        ProfileError::PasswordMismatch
    );
    assert!(confirm_password(true, "a", "b").is_ok());
    assert!(confirm_password(false, "a", "a").is_ok());
    assert_eq!(
        ProfileError::PasswordMismatch.message(),
        "passwords do not match"
    );
}

#[test]
fn a_contact_is_added_when_its_fingerprint_matches() {
    let encoded = b64(&bundle().encode().unwrap());
    let contact = verify_add_contact(&encoded, "05:AB:CD").unwrap();
    assert_eq!(contact.bundle, bundle());
    assert_eq!(
        verify_add_contact(&encoded, "05:AB:CE").unwrap_err(),
        ContactError::FingerprintMismatch
    );
    assert_eq!(
        verify_add_contact("*", "05").unwrap_err(),
        ContactError::InvalidText
    );
    assert_eq!(
        peer_bundle_from_encoded("AA").unwrap_err(),
        ContactError::InvalidBundle(SignalError::InvalidFrame)
    );
    let (name, kept) = load_saved_contact(&contact.contents).unwrap();
    assert_eq!(name, contact.name);
    assert_eq!(kept.trim(), encoded);
}

#[test]
fn files_hold_the_bytes_or_a_line_of_text() {
    let frame = bundle().encode().unwrap();
    assert_eq!(bundle_output(frame.clone(), false), frame);
    let line = bundle_output(frame.clone(), true);
    assert_eq!(line, format!("{}\n", b64(&frame)).into_bytes());
    assert_eq!(read_bundle_bytes(frame.clone()), frame);

    let sealed = envelope_output(vec![1, 2, 3], true);
    assert_eq!(sealed, b"AQID\n");
    assert_eq!(envelope_input(sealed, true).unwrap(), vec![1, 2, 3]);
    assert_eq!(envelope_input(vec![0xff], false).unwrap(), vec![0xff]);
    assert_eq!(
        envelope_input(vec![0xff], true).unwrap_err(),
        CommandError::NotText
    );
    assert_eq!(
        envelope_input(b"*".to_vec(), true).unwrap_err(),
        CommandError::InvalidText
    );
    assert_eq!(trusted_bundle(line, true, "05abcd").unwrap(), bundle());
    assert_eq!(
        trusted_bundle(frame, false, "05abce").unwrap_err(),
        CommandError::FingerprintMismatch
    );
    assert!(matches!(
        trusted_bundle(vec![], false, "05").unwrap_err(),
        CommandError::InvalidBundle(_)
    ));
}

#[test]
fn primitives_give_their_published_values() {
    assert_eq!(
        hash("abc"),
        "ba7816bf8f01cfea414140de5dae2223b00361a396177a9cb410ff61f20015ad"
    );
    assert_eq!(b64(&[0xfb, 0xff, 0xfe]), "-__-");
    assert_eq!(b64decode("-__-").unwrap(), vec![0xfb, 0xff, 0xfe]);
    assert!(b64decode("-__").is_none());
    assert!(decode_base64("*").is_err());
}
