use safechat::bundle::SignalPreKeyBundle;
use safechat::chat::ChatEvent;
use safechat::device::KeyMaintenanceStatus;
use safechat::device_keys::KeyMaintenanceReport;
use safechat::history::{HistoryEntry, HistoryFile, RelayConfig};
use safechat::signal::{MessageId, SafeChatMessage};
use safechat::terminal::{
    asks_for_certificate, bundle_continues, bundle_ends, keep_latest, legacy_history, list_peers, needs_confirmation,
    parse_command, peer_file_component, receive_envelope, relay_client_id, send_envelope,
    show_event, show_history, write_failures_line, write_history_line, write_inventory_line,
    EditorAction, EditorKey, HistoryMode, LineEditor, Lobbies, Pasted, TerminalCommand,
};

fn text(value: &str) -> String {
    value.to_owned()
}

fn peer(name: &str, identity: &[u8]) -> SignalPreKeyBundle {
    SignalPreKeyBundle {
        name: text(name),
        device_id: 1,
        registration_id: 1,
        pre_key: None,
        signed_pre_key_id: 1,
        signed_pre_key_public: vec![1],
        signed_pre_key_signature: vec![2],
        kyber_pre_key_id: 1,
        kyber_pre_key_public: vec![3],
        kyber_pre_key_signature: vec![4],
        identity_key: identity.to_vec(),
    }
}

#[test]
fn lines_become_commands() {
    assert_eq!(
        parse_command(" /s hi ", false, true),
        TerminalCommand::Send(text("hi"))
    );
    assert_eq!(
        parse_command("/r AQID", false, true),
        TerminalCommand::Receive(text("AQID"))
    );
    assert_eq!(
        parse_command("/s hi", false, false),
        TerminalCommand::NoLobby
    );
    assert_eq!(
        parse_command("/use  bob ", false, true),
        TerminalCommand::Use(text("bob"))
    );
    assert_eq!(
        parse_command("/transport relay edit", false, false),
        TerminalCommand::EditRelay
    );
    assert_eq!(
        parse_command("/add-contact", false, false),
        TerminalCommand::AddPeer
    );
    assert_eq!(
        parse_command("/add-peer", false, false),
        TerminalCommand::AddPeer
    );
    assert_eq!(
        parse_command("/add-contact  sc-1 ", true, false),
        TerminalCommand::RequestContact(text("sc-1"))
    );
    assert_eq!(
        parse_command("/contacts", true, false),
        TerminalCommand::ReviewContacts
    );
    assert_eq!(parse_command("/exit", false, false), TerminalCommand::Quit);
    assert_eq!(parse_command("  ", true, true), TerminalCommand::Nothing);
    assert_eq!(
        parse_command("hello", false, true),
        TerminalCommand::Unknown(text("hello"))
    );
}

#[test]
fn the_relay_sends_plain_lines() {
    assert_eq!(
        parse_command("hello", true, true),
        TerminalCommand::Send(text("hello"))
    );
    assert_eq!(
        parse_command("/unknown", true, true),
        TerminalCommand::Unknown(text("/unknown"))
    );
}

#[test]
fn an_added_peer_is_active() {
    let mut lobbies = Lobbies::new(Vec::new(), Vec::new());
    let bob = peer("bob", &[5]);
    lobbies.add_peer(bob.clone(), HistoryFile::empty());
    lobbies.add_peer(peer("carol", &[6]), HistoryFile::empty());
    assert_eq!(lobbies.current, 1);
    assert!(lobbies.has_peer(&bob));
    assert!(lobbies.use_peer("bob"));
    assert_eq!(lobbies.current, 0);
    assert!(!lobbies.use_peer("nobody"));
    assert_eq!(
        list_peers(&lobbies),
        vec![
            "Private lobbies:",
            "* bob (bob.1)\nfingerprint: 05",
            "  carol (carol.1)\nfingerprint: 06",
        ]
    );
    lobbies.accept_recovery(peer("bob", &[7]));
    assert_eq!(lobbies.peers[0].identity_key, vec![7]);
    lobbies.revoke_current();
    assert_eq!(lobbies.peers.len(), 1);
    assert_eq!(lobbies.peers[0].name, "carol");
    lobbies.clear();
    assert!(lobbies.peers.is_empty());
}

#[test]
fn later_bundles_of_a_peer_count() {
    let peers = vec![peer("bob", &[5]), peer("carol", &[6]), peer("bob", &[7])];
    let kept = keep_latest(&peers);
    assert_eq!(kept.len(), 2);
    assert_eq!(kept[0].name, "carol");
    assert_eq!(kept[1].identity_key, vec![7]);
    assert_eq!(peer_file_component(&peers[0]), "bob_1");
}

#[test]
fn shared_histories_are_divided() {
    let shared = HistoryFile::new(vec![
        HistoryEntry::new(1, text("you"), text("a")),
        HistoryEntry::new(2, text("bob"), text("b")).with_peer(text("bob.1")),
        HistoryEntry::new(3, text("carol"), text("c")).with_peer(text("carol")),
    ]);
    let bob = legacy_history(&shared, &peer("bob", &[5]), true);
    assert_eq!(bob.entries.len(), 2);
    let carol = legacy_history(&shared, &peer("carol", &[6]), false);
    assert_eq!(carol.entries.len(), 1);
    assert_eq!(carol.entries[0].text, "c");
}

#[test]
fn pasted_envelopes_are_kept_once() {
    let mut history = HistoryFile::empty();
    let bob = peer("bob", &[5]);
    let id = MessageId::from_bytes(&[1; 16]).unwrap();
    assert_eq!(
        send_envelope(&mut history, 1, &bob, id, b"hi \xff", &[1, 2, 3]),
        "AQID"
    );
    assert_eq!(history.entries[0].text, "hi \u{fffd}");
    let message = SafeChatMessage {
        id: MessageId::from_bytes(&[2; 16]).unwrap(),
        plaintext: b"hello".to_vec(),
    };
    assert_eq!(
        receive_envelope(&mut history, 2, &bob, message.clone(), &[4]),
        Pasted::Kept {
            text: text("hello")
        }
    );
    assert_eq!(
        receive_envelope(&mut history, 3, &bob, message, &[4]),
        Pasted::Duplicate
    );
    let garbled = SafeChatMessage {
        id: MessageId::from_bytes(&[3; 16]).unwrap(),
        plaintext: vec![0xff],
    };
    assert_eq!(
        receive_envelope(&mut history, 4, &bob, garbled, &[4]),
        Pasted::NotText
    );
    assert_eq!(history.entries.len(), 2);
}

#[test]
fn lines_can_be_edited() {
    let mut editor = LineEditor::new();
    assert_eq!(
        editor.press(EditorKey::Backspace),
        EditorAction::Nothing
    );
    editor.press(EditorKey::Character('a'));
    assert_eq!(
        editor.press(EditorKey::Character('é')),
        EditorAction::Show('é')
    );
    assert_eq!(editor.press(EditorKey::Backspace), EditorAction::Erase);
    assert_eq!(
        editor.press(EditorKey::Enter),
        EditorAction::Submit(text("a"))
    );
    assert_eq!(editor.press(EditorKey::Escape), EditorAction::Clear);
    assert_eq!(editor.line, "");
    assert_eq!(
        editor.press(EditorKey::Interrupt),
        EditorAction::Submit(text("/quit"))
    );
}

#[test]
fn histories_are_written_line_by_line() {
    let sent = HistoryEntry::new(0, text("you"), text("hi"))
        .with_ciphertext(text("AQID"))
        .with_delivery_status(text("read"));
    assert_eq!(
        write_history_line(&sent, "now", HistoryMode::Clean),
        "  [now] you: hi [read]"
    );
    assert_eq!(
        write_history_line(&sent, "now", HistoryMode::Ciphertext),
        "  [now] you: AQID [read]"
    );
    assert_eq!(
        show_history(&HistoryFile::new(vec![sent]), HistoryMode::Clean),
        vec![
            "Chat history:",
            "  [1970-01-01 00:00:00 UTC] you: hi [read]",
            ""
        ]
    );
    assert_eq!(
        show_history(&HistoryFile::empty(), HistoryMode::Clean),
        vec!["No messages yet."]
    );
}

#[test]
fn events_are_written() {
    assert_eq!(
        show_event(&ChatEvent::Received {
            timestamp: 0,
            sender: text("bob"),
            text: text("hi")
        }),
        Some(text("[1970-01-01 00:00:00 UTC] bob: hi"))
    );
    assert_eq!(
        show_event(&ChatEvent::Stale {
            transport_id: text("7")
        }),
        Some(text(
            "Discarding stale relay message 7 after ratchet recovery."
        ))
    );
    assert_eq!(
        show_event(&ChatEvent::Sent {
            timestamp: 0,
            text: text("hi")
        }),
        None
    );
}

#[test]
fn key_maintenance_is_reported() {
    let status = KeyMaintenanceStatus {
        consecutive_failures: 2,
        total_failures: 5,
        last_error: None,
        last_failed_at: None,
    };
    assert_eq!(
        write_failures_line(&status, false),
        "Maintenance failures: 5 total, 2 consecutive"
    );
    assert_eq!(
        write_failures_line(&status, true),
        "ALERT: 2 consecutive maintenance failures (5 total)"
    );
    let line = write_inventory_line(&KeyMaintenanceReport {
        one_time_prekeys: 32,
        signed_prekeys: 2,
        replenished: false,
        rotated: false,
        consecutive_failures: 0,
    });
    assert!(line.contains("32"));
    assert!(line.contains('2'));
}

#[test]
fn certificates_are_asked_for_once() {
    assert!(asks_for_certificate("https://relay", false, false));
    assert!(!asks_for_certificate("https://relay", true, false));
    assert!(!asks_for_certificate("https://relay", false, true));
    assert!(!asks_for_certificate("http://relay", false, false));
}

#[test]
fn plain_http_is_confirmed_once() {
    assert!(!needs_confirmation("https://relay", None));
    assert!(needs_confirmation("http://relay", None));
    let saved = RelayConfig::new(text("http://relay"), text("s"));
    assert!(needs_confirmation("http://relay", Some(&saved)));
    let allowed = saved.with_insecure_http(true);
    assert!(!needs_confirmation("http://relay", Some(&allowed)));
    assert!(needs_confirmation("http://other", Some(&allowed)));
}

#[test]
fn relay_clients_are_named_after_their_identity() {
    assert_eq!(relay_client_id("given", &[5]), "given");
    assert_ne!(relay_client_id("", &[5]), relay_client_id("", &[6]));
}

#[test]
fn pasted_bundles_may_span_lines() {
    assert!(bundle_continues("AQID"));
    assert!(!bundle_continues(" safechat-bundle-v1:AQID"));
    assert!(bundle_ends(" END "));
    assert!(!bundle_ends("AQID"));
}
