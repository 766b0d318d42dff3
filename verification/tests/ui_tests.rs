use safechat::bundle::SignalPreKeyBundle;
use safechat::chat::ChatEvent;
use safechat::history::{HistoryEntry, HistoryFile};
use safechat::signal::{MessageId, SafeChatMessage};
use safechat::timestamps::{format_timestamp, format_timestamp_utc, label_local, LocalMoment};
use safechat::ui_ports::{Clipboard, Clock, PortError};
use safechat::ui_service::{
    error_event, finish_command, handle_command, pasted_envelope, perform_chat_action,
    perform_paste_receive, perform_paste_send, to_slint_message, Finished, ProfileReadyData,
    ProfileSession, Work,
};
use safechat::ui_state::{
    render_history, render_history_page, Command, ConversationMessage, DefaultTransportSelector,
    Event, HistoryPage, Operation, TransportKind, TransportSelector, UiState, HISTORY_PAGE_SIZE,
};
use std::sync::Mutex;

fn text(value: &str) -> String {
    value.to_owned()
}

fn message(value: &str) -> ConversationMessage {
    ConversationMessage {
        sender: text("You"),
        text: text(value),
        timestamp: 0,
        outgoing: true,
        status: text("sent"),
        ciphertext: String::new(),
    }
}

fn peer() -> SignalPreKeyBundle {
    SignalPreKeyBundle {
        name: text("bob"),
        device_id: 1,
        registration_id: 1,
        pre_key: None,
        signed_pre_key_id: 1,
        signed_pre_key_public: vec![],
        signed_pre_key_signature: vec![],
        kyber_pre_key_id: 1,
        kyber_pre_key_public: vec![],
        kyber_pre_key_signature: vec![],
        identity_key: vec![5],
    }
}

#[test]
fn render_history_preserves_message_state_and_labels_local_sender() {
    let history = HistoryFile::new(vec![
        HistoryEntry::new(10, text("you"), text("hello"))
            .with_message_id(text("outgoing-id"))
            .with_peer(text("peer"))
            .with_ciphertext(text("ciphertext-1"))
            .with_delivery_status(text("copied"))
            .with_transport_recipient(text("recipient")),
        HistoryEntry::new(11, text("Bob"), text("hi"))
            .with_message_id(text("incoming-id"))
            .with_peer(text("peer"))
            .with_ciphertext(text("ciphertext-2"))
            .with_delivery_status(text("received")),
    ])
    .with_transport_cursor(4);

    let messages = render_history(&history);

    assert_eq!(messages.len(), 2);
    assert_eq!(messages[0].sender, "You");
    assert!(messages[0].outgoing);
    assert_eq!(messages[0].text, "hello");
    assert_eq!(messages[0].status, "copied");
    assert_eq!(messages[0].ciphertext, "ciphertext-1");
    assert_eq!(messages[1].sender, "Bob");
    assert!(!messages[1].outgoing);
    assert_eq!(messages[1].timestamp, 11);
}

#[test]
fn render_history_empty_file_has_no_bubbles() {
    let history = HistoryFile::empty();

    assert!(render_history(&history).is_empty());
}

#[test]
fn history_pages_start_at_the_latest_messages() {
    let entries = (0..(HISTORY_PAGE_SIZE + 2))
        .map(|index| {
            HistoryEntry::new(index as u64, text("Bob"), index.to_string())
                .with_message_id(index.to_string())
                .with_peer(text("peer"))
        })
        .collect();
    let history = HistoryFile::new(entries);
    let page = render_history_page(&history, None);
    assert_eq!(page.messages.first().unwrap().text, "2");
    assert_eq!(
        page.messages.last().unwrap().text,
        (HISTORY_PAGE_SIZE + 1).to_string()
    );
    assert_eq!(page.cursor, 2);
    assert!(page.has_more);
    let older = render_history_page(&history, Some(page.cursor));
    assert_eq!(older.messages.len(), 2);
    assert!(!older.has_more);
}

#[test]
fn chat_model_projection_preserves_fields_for_the_view() {
    let message = to_slint_message(ConversationMessage {
        sender: "Bob".to_owned(),
        text: "A long message".to_owned(),
        timestamp: 42,
        outgoing: false,
        status: "received".to_owned(),
        ciphertext: "encrypted".to_owned(),
    });

    assert_eq!(message.sender.to_string(), "Bob");
    assert_eq!(message.text.to_string(), "A long message");
    assert!(message.timestamp.to_string().starts_with("1970-01-01 "));
    assert!(!message.outgoing);
    assert_eq!(message.status.to_string(), "received");
    assert_eq!(message.ciphertext.to_string(), "encrypted");
}

#[test]
fn operation_names_are_stable_for_user_facing_errors() {
    assert_eq!(Operation::Profile.text(), "profile");
    assert_eq!(Operation::Contact.text(), "contact");
    assert_eq!(Operation::History.text(), "history");
    assert_eq!(Operation::Chat.text(), "chat");
    assert_eq!(Operation::Relay.text(), "relay");
}

#[test]
fn transport_selection_is_typed_and_rejects_unknown_values() {
    assert_eq!(
        TransportKind::parse("Copy/paste"),
        Some(TransportKind::CopyPaste)
    );
    assert_eq!(TransportKind::parse("Relay"), Some(TransportKind::Relay));
    assert_eq!(TransportKind::parse("custom"), None);
}

#[test]
fn state_transitions_capture_loading_and_results_without_view_access() {
    let mut state = UiState::from_profiles(vec!["alice".to_owned()]);
    state.conversation_selected = true;
    state.prepare(&Command::LoadHistory {
        peer: "peer".to_owned(),
    });
    assert!(state.chat_loading);

    state.apply(&Event::ChatUpdated {
        messages: Vec::new(),
        status: "Chat history loaded.".to_owned(),
        history_cursor: 0,
        has_more: false,
        prepend: false,
    });
    assert!(!state.chat_loading);
    assert_eq!(state.status, "Chat history loaded.");
}

#[test]
fn state_keeps_selected_transport_typed() {
    let mut state = UiState::from_profiles(Vec::new());
    state.select_transport(TransportKind::Relay);
    assert_eq!(state.selected_transport, TransportKind::Relay);
}

#[test]
fn loading_text_identifies_the_active_chat_operation() {
    let mut state = UiState::from_profiles(vec!["alice".to_owned()]);
    state.prepare(&Command::LoadHistory {
        peer: "peer".to_owned(),
    });
    assert_eq!(state.loading_text, "Decrypting chat history…");
    state.prepare(&Command::Send {
        peer: "peer".to_owned(),
        transport: TransportKind::CopyPaste,
        text: "hello".to_owned(),
    });
    assert_eq!(state.loading_text, "Encrypting and sending…");
}

#[test]
fn selecting_existing_chat_closes_new_chat_mode() {
    let mut state = UiState::from_profiles(vec!["alice".to_owned()]);
    state.new_chat_open = true;

    state.prepare(&Command::LoadHistory {
        peer: "peer".to_owned(),
    });

    assert!(!state.new_chat_open);
    assert!(state.conversation_selected);
    assert!(state.history_loading);
}

#[test]
fn returning_to_loaded_chat_only_changes_view_state() {
    let mut state = UiState::from_profiles(vec!["alice".to_owned()]);
    state.conversation_selected = true;
    state.new_chat_open = true;
    state.chat_loading = false;
    state.history_loading = false;
    state.messages.push(ConversationMessage {
        sender: "You".to_owned(),
        text: "hello".to_owned(),
        timestamp: 0,
        outgoing: true,
        status: "sent".to_owned(),
        ciphertext: String::new(),
    });

    state.return_to_existing_chat();

    assert!(!state.new_chat_open);
    assert!(state.conversation_selected);
    assert!(!state.chat_loading);
    assert!(!state.history_loading);
    assert_eq!(state.messages.len(), 1);

    state.return_to_existing_chat();
    assert!(!state.chat_loading);
    assert!(!state.history_loading);
    assert_eq!(state.messages.len(), 1);
}

#[test]
fn public_ui_state_contract_tracks_loading_and_chat_results() {
    let mut state = UiState::from_profiles(vec!["alice".to_owned()]);
    assert_eq!(state.selected_transport, TransportKind::CopyPaste);
    assert!(!state.conversation_selected);

    let command = Command::LoadHistory {
        peer: "peer-bundle".to_owned(),
    };
    state.prepare(&command);
    assert!(state.chat_loading);
    assert!(state.history_loading);

    state.apply(&Event::ChatUpdated {
        messages: Vec::new(),
        status: "Conversation selected.".to_owned(),
        history_cursor: 0,
        has_more: false,
        prepend: false,
    });
    assert!(!state.chat_loading);
    assert!(!state.history_loading);
    assert_eq!(state.status, "Conversation selected.");
}

#[test]
fn public_ui_command_operation_is_transport_aware() {
    assert_eq!(
        Command::Send {
            peer: "peer".to_owned(),
            transport: TransportKind::CopyPaste,
            text: "hello".to_owned(),
        }
        .operation()
        .text(),
        "chat"
    );
    assert_eq!(
        Command::Send {
            peer: "peer".to_owned(),
            transport: TransportKind::Relay,
            text: "hello".to_owned(),
        }
        .operation()
        .text(),
        "relay"
    );
}

#[test]
fn worker_reports_sanitized_errors_for_commands_without_a_session() {
    let error = handle_command(
        &None,
        &Command::LoadHistory {
            peer: "not-a-bundle".to_owned(),
        },
    )
    .unwrap_err();
    assert_eq!(error.source, "profile is not unlocked");
    if let Event::Error { operation, message } = error_event(&error) {
        assert_eq!(operation, Operation::History);
        assert_eq!(
            message,
            "operation failed; see the application log for details"
        );
    } else {
        panic!("worker did not return an error");
    }
}

struct RecordingClipboard(Mutex<Vec<String>>);

impl Clipboard for RecordingClipboard {
    fn set_text(&self, text: &str) -> Result<(), PortError> {
        self.0.lock().unwrap().push(text.to_owned());
        Ok(())
    }
}

struct StoppedClock;

impl Clock for StoppedClock {
    fn now(&self) -> u64 {
        7
    }
}

#[test]
fn ports_can_be_replaced() {
    let clipboard = RecordingClipboard(Mutex::new(Vec::new()));
    assert!(clipboard.set_text("ciphertext").is_ok());
    assert_eq!(clipboard.0.lock().unwrap().as_slice(), ["ciphertext"]);
    assert_eq!(StoppedClock.now(), 7);
    let selector = DefaultTransportSelector;
    assert_eq!(selector.options(), ["Copy/paste", "Relay"]);
    assert_eq!(selector.parse("Relay"), Some(TransportKind::Relay));
}

#[test]
fn unlocking_a_profile_opens_a_session() {
    let command = Command::Initialize {
        profile: text("alice"),
        password: text("secret"),
        confirmation: text("secret"),
    };
    assert_eq!(
        handle_command(&None, &command).unwrap(),
        Work::Initialize {
            profile: text("alice"),
            password: text("secret"),
            confirmation: text("secret"),
        }
    );
    let mut session = None;
    let event = finish_command(
        &mut session,
        command,
        Finished::Ready(ProfileReadyData {
            profile: text("alice"),
            fingerprint: text("05"),
            bundle: text("b"),
            contact: None,
        }),
    )
    .unwrap();
    assert_eq!(
        session,
        Some(ProfileSession {
            profile: text("alice"),
            password: text("secret"),
        })
    );
    let mut state = UiState::from_profiles(vec![text("alice")]);
    state.apply(&event);
    assert!(state.profile_ready);
    assert_eq!(state.fingerprint, "05");
}

#[test]
fn each_command_of_a_session_has_its_work() {
    let session = Some(ProfileSession {
        profile: text("alice"),
        password: text("secret"),
    });
    let active = session.clone().unwrap();
    assert_eq!(
        handle_command(
            &session,
            &Command::LoadOlderHistory {
                peer: text("p"),
                before: 9
            }
        )
        .unwrap(),
        Work::LoadPage {
            session: active.clone(),
            peer: text("p"),
            before: Some(9),
            page_size: 40,
        }
    );
    assert_eq!(
        handle_command(
            &session,
            &Command::Send {
                peer: text("p"),
                transport: TransportKind::CopyPaste,
                text: text("hi"),
            }
        )
        .unwrap(),
        Work::PasteSend {
            session: active.clone(),
            peer: text("p"),
            text: text("hi"),
        }
    );
    assert_eq!(
        handle_command(&session, &Command::Poll { peer: text("p") }).unwrap(),
        Work::ChatAction {
            session: active,
            peer: text("p"),
            text: None,
        }
    );
}

#[test]
fn older_messages_come_before_the_shown_ones() {
    let mut session = None;
    let event = finish_command(
        &mut session,
        Command::LoadOlderHistory {
            peer: text("p"),
            before: 1,
        },
        Finished::Page {
            page: HistoryPage {
                messages: vec![message("old")],
                cursor: 0,
                has_more: false,
            },
            status: String::new(),
        },
    )
    .unwrap();
    let mut state = UiState::from_profiles(vec![]);
    state.messages.push(message("new"));
    state.apply(&event);
    let shown: Vec<&str> = state.messages.iter().map(|m| m.text.as_str()).collect();
    assert_eq!(shown, ["old", "new"]);
    assert_eq!(state.status, "Older messages loaded.");
}

#[test]
fn failed_work_names_its_operation() {
    let mut session = None;
    let error = finish_command(
        &mut session,
        Command::Poll { peer: text("p") },
        Finished::Failed(text("no relay")),
    )
    .unwrap_err();
    assert_eq!(error.operation, Operation::Relay);
    assert_eq!(error.source, "no relay");
}

#[test]
fn a_pasted_message_is_kept_once() {
    let mut history = HistoryFile::empty();
    let message = SafeChatMessage {
        id: MessageId::from_bytes(&[1; 16]).unwrap(),
        plaintext: b"hello".to_vec(),
    };
    assert_eq!(
        perform_paste_receive(&mut history, 5, &peer(), message.clone(), "AQID"),
        Ok(true)
    );
    assert_eq!(
        perform_paste_receive(&mut history, 6, &peer(), message, "AQID"),
        Ok(false)
    );
    assert_eq!(history.entries.len(), 1);
    assert_eq!(history.entries[0].text, "hello");
    assert_eq!(history.entries[0].sender, "bob");
    let garbled = SafeChatMessage {
        id: MessageId::from_bytes(&[2; 16]).unwrap(),
        plaintext: vec![0xff],
    };
    assert!(perform_paste_receive(&mut history, 7, &peer(), garbled, "").is_err());
}

#[test]
fn a_message_to_be_copied_is_kept_with_its_ciphertext() {
    let mut history = HistoryFile::empty();
    let id = MessageId::from_bytes(&[1; 16]).unwrap();
    let encoded = perform_paste_send(&mut history, 5, &peer(), "hello", id, &[1, 2, 3]);
    assert_eq!(encoded, "AQID");
    assert_eq!(history.entries[0].ciphertext, "AQID");
    assert_eq!(history.entries[0].delivery_status, "copied");
    assert_eq!(history.entries[0].message_id, "01".repeat(16));
    assert_eq!(pasted_envelope(" AQID\n").unwrap(), vec![1, 2, 3]);
    assert!(pasted_envelope("*").is_err());
}

#[test]
fn the_status_tells_what_the_relay_did() {
    assert_eq!(perform_chat_action(&None, &vec![]), "Chat is up to date.");
    let sent = Some(ChatEvent::Sent {
        timestamp: 1,
        text: text("hi"),
    });
    assert_eq!(perform_chat_action(&sent, &vec![]), "Message sent.");
}

#[test]
fn the_window_asks_for_what_is_missing() {
    let mut state = UiState::from_profiles(vec![text("alice")]);
    assert!(state.send_message("hi").is_none());
    assert_eq!(state.status, "Add and select a contact first.");
    state.contact_bundle = text("bundle");
    assert!(state.send_message("  ").is_none());
    assert_eq!(state.status, "Type a message first.");
    assert!(state.receive_pasted(" ").is_none());
    assert_eq!(state.status, "Paste an encrypted message first.");
    assert_eq!(
        state.send_message("hi"),
        Some(Command::Send {
            peer: text("bundle"),
            transport: TransportKind::CopyPaste,
            text: text("hi"),
        })
    );
    state.choose_transport("Relay");
    assert_eq!(state.status, "Selected transport: Relay");
    state.choose_transport("Pigeon");
    assert_eq!(state.selected_transport, TransportKind::Relay);
}

#[test]
fn the_relay_is_polled_every_three_seconds() {
    let mut state = UiState::from_profiles(vec![text("alice")]);
    state.profile_ready = true;
    state.conversation_selected = true;
    state.contact_bundle = text("bundle");
    state.selected_transport = TransportKind::Relay;
    assert!(state.poll_due(2).is_none());
    assert_eq!(
        state.poll_due(3),
        Some(Command::Poll {
            peer: text("bundle")
        })
    );
    assert!(state.poll_due(3).is_none());
    state.submit_failed("Could not poll", "worker stopped");
    assert_eq!(state.status, "Could not poll: worker stopped");
    assert!(!state.chat_loading);
}

#[test]
fn the_window_follows_its_user() {
    let mut state = UiState::from_profiles(vec![text("alice")]);
    state.select_profile("alice");
    assert_eq!(state.status, "Selected profile: alice");
    state.begin_create_profile();
    assert!(state.creating_profile);
    state.begin_create_profile();
    assert!(!state.creating_profile);
    state.new_chat();
    assert!(state.new_chat_open);
    assert!(state.select_contact().is_none());
    state.contact_bundle = text("bundle");
    assert_eq!(
        state.select_contact(),
        Some(Command::LoadHistory {
            peer: text("bundle")
        })
    );
    assert!(state.load_older_history().is_none());
    state.chat_loading = false;
    state.history_has_more = true;
    state.history_cursor = 4;
    assert_eq!(
        state.load_older_history(),
        Some(Command::LoadOlderHistory {
            peer: text("bundle"),
            before: 4
        })
    );
    state.copied("Bundle", None);
    assert_eq!(state.status, "Bundle copied to clipboard.");
    state.copied("Bundle", Some("no display"));
    assert_eq!(state.status, "Could not copy to clipboard: no display");
}

#[test]
fn dates_are_those_of_the_calendar() {
    for (timestamp, shown) in [
        (951_827_696, "2000-02-29 12:34:56 UTC"),
        (4_107_542_399, "2100-02-28 23:59:59 UTC"),
        (4_107_542_400, "2100-03-01 00:00:00 UTC"),
        (253_402_300_799, "9999-12-31 23:59:59 UTC"),
        (253_402_300_800, "+10000-01-01 00:00:00 UTC"),
        (8_210_266_876_799, "+262142-12-31 23:59:59 UTC"),
        (8_210_266_876_800, "unknown time"),
    ] {
        assert_eq!(format_timestamp_utc(timestamp), shown);
    }
    for timestamp in [0_u64, 951_827_696, 1_700_000_000, 253_402_400_000] {
        let local = chrono::DateTime::<chrono::Utc>::from_timestamp(timestamp as i64, 0)
            .unwrap()
            .with_timezone(&chrono::Local);
        assert_eq!(
            format_timestamp(timestamp),
            local.format("%Y-%m-%d %H:%M").to_string()
        );
    }
}

#[test]
fn timestamps_are_shown_by_the_calendar() {
    assert_eq!(format_timestamp_utc(0), "1970-01-01 00:00:00 UTC");
    assert_eq!(
        format_timestamp_utc(1_700_000_000),
        "2023-11-14 22:13:20 UTC"
    );
    assert_eq!(format_timestamp_utc(i64::MAX as u64), "unknown time");
    assert_eq!(format_timestamp(u64::MAX), "18446744073709551615");
    assert_eq!(format_timestamp(8_210_266_876_800), "8210266876800");
    let shown = format_timestamp(1_700_000_000);
    assert_eq!(shown.len(), 16);
    assert!(shown.starts_with("2023-11-1"));
    assert_eq!(&shown[13..14], ":");
    let moment = LocalMoment {
        day: 10,
        clock: text("12:30"),
        date: text("2023-01-01 12:30"),
    };
    assert_eq!(label_local(1, Some(moment.clone()), 10, 9), "Today, 12:30");
    assert_eq!(
        label_local(1, Some(moment.clone()), 11, 10),
        "Yesterday, 12:30"
    );
    assert_eq!(label_local(1, Some(moment), 12, 11), "2023-01-01 12:30");
    assert_eq!(label_local(1, None, 12, 11), "1");
}

#[test]
fn ten_messages_are_shown_without_a_window() {
    let mut state = UiState::from_profiles(vec![text("alice")]);
    state.apply(&Event::ProfileReady {
        profile: text("alice"),
        fingerprint: text("fingerprint"),
        bundle: text("bundle"),
        contact: Some((text("Bob"), text("peer-bundle"))),
    });
    state.conversation_selected = true;
    let messages = (0..10)
        .map(|index| ConversationMessage {
            sender: text(if index % 2 == 0 { "You" } else { "Bob" }),
            text: format!("headless message {index}"),
            timestamp: index,
            outgoing: index % 2 == 0,
            status: text("sent"),
            ciphertext: text("test-ciphertext"),
        })
        .collect();
    state.apply(&Event::ChatUpdated {
        messages,
        status: text("Message sent."),
        history_cursor: 0,
        has_more: false,
        prepend: false,
    });
    assert_eq!(state.messages.len(), 10);
    assert!(!state.chat_loading && !state.history_loading);
    let projected: Vec<_> = state.messages.iter().cloned().map(to_slint_message).collect();
    assert_eq!(projected.len(), 10);
    assert_eq!(projected[9].text, "headless message 9");
}
