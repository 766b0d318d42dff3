use safechat::bundle::SignalPreKeyBundle;
use safechat::chat::{
    advance_cursor, ChatAction, ChatError, ChatEvent, ChatReply, ChatService, OLD_COUNTER,
};
use safechat::history::HistoryFile;
use safechat::signal::SafeChatMessage;
use safechat::transport::{DeliveryStatus, TransportMessage};

fn bob() -> SignalPreKeyBundle {
    SignalPreKeyBundle {
        name: "bob".to_owned(),
        device_id: 1,
        registration_id: 1,
        pre_key: None,
        signed_pre_key_id: 1,
        signed_pre_key_public: vec![],
        signed_pre_key_signature: vec![],
        kyber_pre_key_id: 1,
        kyber_pre_key_public: vec![],
        kyber_pre_key_signature: vec![],
        identity_key: vec![5],
    }
}

struct TestTransport {
    fail_send: bool,
    status: DeliveryStatus,
    sent: Vec<(String, String, Vec<u8>)>,
    incoming: Vec<TransportMessage>,
    receive_cursors: Vec<i64>,
    acknowledgements: Vec<String>,
    saves: Vec<HistoryFile>,
    decrypted: Vec<SafeChatMessage>,
}

impl TestTransport {
    fn new() -> TestTransport {
        TestTransport {
            fail_send: false,
            status: DeliveryStatus::Sent,
            sent: Vec::new(),
            incoming: Vec::new(),
            receive_cursors: Vec::new(),
            acknowledgements: Vec::new(),
            saves: Vec::new(),
            decrypted: Vec::new(),
        }
    }

    fn perform(&mut self, history: &HistoryFile, action: ChatAction) -> Result<ChatReply, Option<ChatError>> {
        Ok(match action {
            ChatAction::AskStatus { .. } => ChatReply::Status(Some(self.status)),
            ChatAction::Save => {
                self.saves.push(history.clone());
                ChatReply::Saved(true)
            }
            ChatAction::Send { recipient, message_id, envelope } => {
                if self.fail_send {
                    ChatReply::Sent(false)
                } else {
                    self.sent.push((recipient, message_id, envelope));
                    ChatReply::Sent(true)
                }
            }
            ChatAction::Receive { cursor } => {
                self.receive_cursors.push(cursor);
                ChatReply::Received(Some(self.incoming.clone()))
            }
            ChatAction::Decrypt { .. } => match self.decrypted.pop() {
                Some(message) => ChatReply::Decrypted(message),
                None => ChatReply::Undecryptable("message with old counter 0 / 1".to_owned()),
            },
            ChatAction::Acknowledge { message } => {
                self.acknowledgements.push(message.transport_id);
                ChatReply::Acknowledged(true)
            }
            ChatAction::Done => return Err(None),
            ChatAction::Fail(error) => return Err(Some(error)),
        })
    }
}

fn send(
    transport: &mut TestTransport,
    history: &mut HistoryFile,
    text: &[u8],
) -> Result<ChatEvent, ChatError> {
    let service = ChatService::new(bob().address());
    let message = SafeChatMessage::new(text);
    let envelope = vec![1, 2, 3];
    let (mut send, mut action) =
        service.send_text(history, &bob(), "bob-client", &message, envelope, 100);
    loop {
        match transport.perform(history, action) {
            Ok(reply) => action = send.step(history, reply),
            Err(None) => return Ok(send.event()),
            Err(Some(error)) => return Err(error),
        }
    }
}

fn poll(
    transport: &mut TestTransport,
    history: &mut HistoryFile,
    sender: Option<String>,
) -> Result<Vec<ChatEvent>, ChatError> {
    let service = ChatService::new(bob().address());
    let (mut poll, mut action) = service.poll(history, &bob(), sender);
    loop {
        match transport.perform(history, action) {
            Ok(reply) => action = poll.step(history, reply, 200),
            Err(None) => return Ok(poll.events),
            Err(Some(error)) => return Err(error),
        }
    }
}

fn incoming(transport_id: &str, sender: &str, address: Option<String>) -> TransportMessage {
    TransportMessage::new(
        transport_id.to_owned(),
        sender.to_owned(),
        address,
        String::new(),
        vec![9],
        1,
        None,
    )
}

#[test]
fn queued_send_retries_with_the_same_message_id() {
    let mut transport = TestTransport::new();
    transport.fail_send = true;
    let mut history = HistoryFile::empty();
    let result = send(&mut transport, &mut history, b"hello");
    assert!(result.is_err());
    assert_eq!(history.entries[0].delivery_status, "queued");
    let message_id = history.entries[0].message_id.clone();

    transport.fail_send = false;
    poll(&mut transport, &mut history, None).unwrap();
    assert_eq!(history.entries[0].delivery_status, "sent");
    assert_eq!(transport.sent.len(), 1);
    assert_eq!(transport.sent[0].1, message_id);
    assert_eq!(transport.sent[0].0, "bob-client");
    assert_eq!(transport.sent[0].2, vec![1, 2, 3]);
}

#[test]
fn receive_ack_persists_cursor_and_suppresses_duplicate_delivery() {
    let mut transport = TestTransport::new();
    transport.incoming = vec![incoming("42", "bob-client", Some(bob().address()))];
    transport.decrypted = vec![SafeChatMessage::new(b"incoming")];
    let mut history = HistoryFile::empty();
    let events = poll(&mut transport, &mut history, Some("bob-client".to_owned())).unwrap();
    assert_eq!(events.len(), 1);
    assert_eq!(history.transport_cursor, 42);
    assert_eq!(transport.acknowledgements, vec!["42"]);

    let events = poll(&mut transport, &mut history, Some("bob-client".to_owned())).unwrap();
    assert!(matches!(events.as_slice(), [ChatEvent::Stale { .. }]));
    assert_eq!(transport.receive_cursors, vec![0, 42]);
    assert_eq!(history.entries.len(), 1);
}

#[test]
fn a_message_is_saved_before_it_is_sent_and_after() {
    let mut transport = TestTransport::new();
    let mut history = HistoryFile::empty();
    let event = send(&mut transport, &mut history, b"hello").unwrap();
    assert_eq!(
        event,
        ChatEvent::Sent {
            timestamp: 100,
            text: "hello".to_owned()
        }
    );
    assert_eq!(transport.saves.len(), 2);
    assert_eq!(transport.saves[0].entries[0].delivery_status, "queued");
    assert_eq!(transport.saves[1].entries[0].delivery_status, "sent");
    assert_eq!(history.entries[0].sender, "you");
    assert_eq!(history.entries[0].peer, "bob.1");
    assert_eq!(history.entries[0].ciphertext, "AQID");
    assert_eq!(history.entries[0].transport_recipient, "bob-client");
}

#[test]
fn read_receipts_are_reported_once() {
    let mut transport = TestTransport::new();
    let mut history = HistoryFile::empty();
    send(&mut transport, &mut history, b"hello").unwrap();
    transport.status = DeliveryStatus::Read;
    let events = poll(&mut transport, &mut history, None).unwrap();
    assert_eq!(
        events,
        vec![ChatEvent::Read {
            timestamp: 100,
            text: "hello".to_owned()
        }]
    );
    assert_eq!(history.entries[0].delivery_status, "read");
    assert!(poll(&mut transport, &mut history, None).unwrap().is_empty());
}

#[test]
fn a_message_of_another_device_is_left_alone() {
    let mut transport = TestTransport::new();
    transport.incoming = vec![incoming("7", "mallory", Some("mallory.1".to_owned()))];
    let mut history = HistoryFile::empty();
    let events = poll(&mut transport, &mut history, Some("bob-client".to_owned())).unwrap();
    assert!(events.is_empty());
    assert!(transport.acknowledgements.is_empty());
    assert_eq!(history.transport_cursor, 0);
}

#[test]
fn a_message_that_arrives_twice_is_kept_once() {
    let mut transport = TestTransport::new();
    let message = SafeChatMessage::new(b"incoming");
    transport.incoming = vec![
        incoming("42", "bob-client", None),
        incoming("43", "bob-client", None),
    ];
    transport.decrypted = vec![message.clone(), message];
    let mut history = HistoryFile::empty();
    let events = poll(&mut transport, &mut history, Some("bob-client".to_owned())).unwrap();
    assert_eq!(events.len(), 1);
    assert_eq!(history.entries.len(), 1);
    assert_eq!(history.entries[0].text, "incoming");
    assert_eq!(history.entries[0].timestamp, 200);
    assert_eq!(transport.acknowledgements, vec!["42", "43"]);
    assert_eq!(history.transport_cursor, 43);
}

#[test]
fn a_text_that_is_not_utf8_ends_the_poll() {
    let mut transport = TestTransport::new();
    transport.incoming = vec![incoming("42", "bob-client", None)];
    transport.decrypted = vec![SafeChatMessage::new(&[0xff])];
    let mut history = HistoryFile::empty();
    assert_eq!(
        poll(&mut transport, &mut history, Some("bob-client".to_owned())).unwrap_err(),
        ChatError::NotUtf8
    );
    assert!(history.entries.is_empty());
}

#[test]
fn an_unreadable_message_ends_the_poll_unless_it_is_stale() {
    let service = ChatService::new(bob().address());
    let mut history = HistoryFile::empty();
    let (mut poll, action) = service.poll(&history, &bob(), Some("bob-client".to_owned()));
    assert_eq!(action, ChatAction::Receive { cursor: 0 });
    let action = poll.step(
        &mut history,
        ChatReply::Received(Some(vec![incoming("1", "bob-client", None)])),
        1,
    );
    assert_eq!(action, ChatAction::Decrypt { ciphertext: vec![9] });
    let action = poll.step(
        &mut history,
        ChatReply::Undecryptable("invalid message".to_owned()),
        1,
    );
    assert_eq!(action, ChatAction::Fail(ChatError::OutsideFailed));
    assert_eq!(OLD_COUNTER, "old counter");
}

#[test]
fn a_reply_to_another_question_is_refused() {
    let service = ChatService::new(bob().address());
    let mut history = HistoryFile::empty();
    let (mut poll, _) = service.poll(&history, &bob(), None);
    let action = poll.step(&mut history, ChatReply::Saved(true), 1);
    assert_eq!(action, ChatAction::Fail(ChatError::UnexpectedReply));
}

#[test]
fn the_cursor_only_moves_forward() {
    let mut history = HistoryFile::empty();
    assert!(advance_cursor(&mut history, "42"));
    assert!(!advance_cursor(&mut history, "41"));
    assert!(!advance_cursor(&mut history, "not a number"));
    assert!(!advance_cursor(&mut history, "9223372036854775808"));
    assert!(advance_cursor(&mut history, "+43"));
    assert_eq!(history.transport_cursor, 43);
}
