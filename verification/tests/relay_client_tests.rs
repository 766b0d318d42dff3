use safechat::bundle::SignalPreKeyBundle;
use safechat::primitives::{b64, b64decode, hash};
use safechat::protocol::{decode_submit, encode_messages, Message};
use safechat::relay_client::{
    accept_contact, accepted_contacts, acknowledge, allowlist_add_remote, base_url_of,
    check_allowlist_url, check_base_url, check_status,
    contact_path, contact_request, decode_bundle, delivery_status, fetch_bundle,
    fetch_bundle_by_address, message_status, parse_binary_messages, parse_json, random_nonce,
    receive_messages, reject_contact, retry_delay, retryable_status, send_message, sent_message,
    transport_message, transport_server_id, Attempt, BaseUrl, ClientError, ContactResponse,
    EnrollmentResponse, RelayBundle, RelayClient, RelayClientConfig, RelayMessage,
    RelayMessageStatus, RelayRegistration, RelayTransport, Retry, RetryAction,
};
use safechat::relay_signing::{write_register_payload, write_request_payload};
use safechat::smoke::{
    parse_binary_message, smoke_fingerprint, smoke_registration, smoke_submit, smoke_url,
    PollAction, SmokePoll, MAX_POLLS, SMOKE_PAYLOAD,
};
use safechat::table::TextTable;
use safechat::transport::{DeliveryStatus, TransportMessage};

fn text(value: &str) -> String {
    value.to_owned()
}

fn bundle(identity: &[u8]) -> SignalPreKeyBundle {
    SignalPreKeyBundle {
        name: text("bob"),
        device_id: 1,
        registration_id: 1,
        pre_key: None,
        signed_pre_key_id: 1,
        signed_pre_key_public: vec![1],
        signed_pre_key_signature: vec![2],
        kyber_pre_key_id: 1,
        kyber_pre_key_public: vec![3],
        kyber_pre_key_signature: vec![4],
        identity_key: identity.to_vec(),
    }
}

fn client() -> RelayClient {
    RelayClient::new(RelayClientConfig::new(
        "https://relay.example",
        "client",
        "secret",
    ))
    .unwrap()
}

fn contact(status: &str, bundle: &str) -> ContactResponse {
    ContactResponse {
        request_id: text("r"),
        sender_id: text("s"),
        sender_name: text("Alice"),
        sender_fingerprint: text("fp"),
        bundle: text(bundle),
        status: text(status),
    }
}

fn encode_test_binary_messages(messages: &[RelayMessage]) -> Vec<u8> {
    encode_messages(
        &messages
            .iter()
            .map(|message| {
                Message::new(
                    message.server_id,
                    message.sender.clone(),
                    message.sender_address.clone(),
                    message.message_id.clone(),
                    message.accepted_at,
                    message.expires_at,
                    message.ciphertext.clone(),
                )
            })
            .collect::<Vec<_>>(),
    )
    .unwrap()
}

#[test]
fn relay_configuration_builder_keeps_secure_defaults_and_explicit_opt_ins() {
    let config = RelayClientConfig::new("https://relay.example", "client", "secret");
    assert_eq!(config.base_url, "https://relay.example");
    assert!(!config.allow_insecure_http);
    assert!(config.ca_certificate_pem.is_none());

    let config = config
        .with_ca_certificate(b"certificate".to_vec())
        .with_insecure_http(true);
    assert_eq!(
        config.ca_certificate_pem.as_deref(),
        Some(b"certificate".as_slice())
    );
    assert!(config.allow_insecure_http);
}

#[test]
fn binary_message_response_round_trips_raw_ciphertext() {
    let message = RelayMessage {
        server_id: 7,
        sender: "alice".to_owned(),
        sender_address: Some("Alice.1".to_owned()),
        message_id: "message-1".to_owned(),
        ciphertext: vec![0, 1, 2, 255],
        accepted_at: 42,
        expires_at: Some(99),
    };
    let encoded = encode_test_binary_messages(&[message.clone()]);
    assert_eq!(parse_binary_messages(&encoded).unwrap(), vec![message]);
}

#[test]
fn binary_message_response_rejects_trailing_bytes() {
    let mut encoded = encode_test_binary_messages(&[]);
    encoded.push(0);
    assert!(parse_binary_messages(&encoded).is_err());
}

#[test]
fn relay_requires_https_by_default() {
    assert!(
        RelayClient::new(RelayClientConfig::new(
            "http://relay.invalid",
            "client",
            "secret"
        ))
        .is_err()
    );
}

#[test]
fn relay_requires_https() {
    assert!(
        RelayClient::new(
            RelayClientConfig::new("http://relay.invalid", "client", "secret")
                .with_insecure_http(false)
        )
        .is_err()
    );
}

#[test]
fn relay_allows_explicit_insecure_http() {
    assert!(
        RelayClient::new(
            RelayClientConfig::new("http://relay.invalid", "client", "secret")
                .with_insecure_http(true)
        )
        .is_ok()
    );
}

#[test]
fn relay_client_request_nonce_is_url_safe_and_128_bits() {
    let nonce = random_nonce();
    assert_eq!(b64decode(&nonce).unwrap().len(), 16);
    assert!(nonce
        .bytes()
        .all(|byte| byte.is_ascii_alphanumeric() || byte == b'_' || byte == b'-'));
    assert_ne!(nonce, random_nonce());
}

#[test]
fn retry_policy_only_retries_transient_failures() {
    assert!(retryable_status(408));
    assert!(retryable_status(429));
    assert!(retryable_status(503));
    assert!(!retryable_status(401));
    assert!(!retryable_status(404));
    assert_eq!(retry_delay(0), 250);
    assert_eq!(retry_delay(3), 2_000);
}

#[test]
fn binary_message_parser_preserves_ciphertext_bytes() {
    let ciphertext = [0, 1, 2, 250, 255];
    let packet = encode_messages(&[Message::new(
        7,
        text("alice"),
        Some("alice.1".into()),
        text("message-7"),
        12,
        None,
        ciphertext.to_vec(),
    )])
    .unwrap();

    let messages = parse_binary_messages(&packet).unwrap();
    assert_eq!(messages.len(), 1);
    assert_eq!(messages[0].ciphertext, ciphertext);
}

#[test]
fn base_urls_are_normalized() {
    assert_eq!(
        base_url_of("https://relay.example/", false).unwrap(),
        "https://relay.example"
    );
    assert_eq!(
        base_url_of("https://relay.example", false).unwrap(),
        "https://relay.example"
    );
    assert_eq!(
        base_url_of("ftp://relay.example", true).unwrap_err(),
        ClientError::InsecureUrl
    );
    assert_eq!(
        base_url_of("not a url", true).unwrap_err(),
        ClientError::InvalidUrl
    );
    assert_eq!(
        check_base_url(None, true).unwrap_err(),
        ClientError::InvalidUrl
    );
    assert_eq!(client().url("/v1/health"), "https://relay.example/v1/health");
}

#[test]
fn a_base_url_with_a_path_keeps_it() {
    let parts = Some((text("https"), text("/relay/"), text("https://h/relay/")));
    assert!(matches!(
        check_base_url(parts, false).unwrap(),
        BaseUrl::Use(_) | BaseUrl::SetPath(_)
    ));
    assert_eq!(
        base_url_of("https://h/relay/", false).unwrap(),
        "https://h/relay"
    );
    assert_eq!(
        base_url_of("https://H/a b/relay", false).unwrap(),
        "https://h/a%20b/relay"
    );
}

#[test]
fn registration_is_signed_over_the_challenge() {
    let mut client = client();
    assert!(!client.is_registered());
    let peer = bundle(&[5]);
    let draft = client.register(&peer, &b64(&[9; 32])).unwrap();
    let frame = peer.encode().unwrap();
    assert_eq!(draft.device_address, "bob.1");
    assert_eq!(draft.bundle, b64(&frame));
    assert_eq!(
        draft.payload,
        write_register_payload("client", "bob.1", &frame, &[9; 32])
    );
    assert_eq!(
        client.register(&peer, "*").unwrap_err(),
        ClientError::InvalidBase64
    );
    client.complete_registration(&RelayRegistration {
        access_token: text("token"),
        device_id: text("client"),
        api_version: text("safechat-relay-v1"),
    });
    assert!(client.is_registered());
    assert_eq!(client.access_token(), Some("token"));
}

#[test]
fn enrollment_sends_the_hash_of_the_secret() {
    let mut client = client();
    let draft = client
        .submit_enrollment_request(&bundle(&[5]), "fp")
        .unwrap();
    assert_eq!(draft.secret_hash, hash("secret"));
    client.complete_enrollment(&EnrollmentResponse {
        accepted: true,
        client_id: text("sc-1"),
        expires_at: 1,
    });
    assert_eq!(client.client_id(), "sc-1");
}

#[test]
fn requests_are_signed_once_registered() {
    let mut client = client();
    assert_eq!(
        client
            .sign_request("GET", "/v1/messages", b"", text("n"), 42)
            .unwrap_err(),
        ClientError::NotRegistered
    );
    client.set_client_id(text("renamed"));
    assert_eq!(client.client_id(), "renamed");
    client.restore_access_token(text("token"));
    let draft = client
        .sign_request("GET", "/v1/messages", b"", text("n"), 42)
        .unwrap();
    assert_eq!(draft.authorization, "Bearer token");
    assert_eq!(draft.nonce, "n");
    assert_eq!(draft.timestamp, "42");
    assert_eq!(
        draft.payload,
        write_request_payload("GET", "/v1/messages", b"", "n", 42)
    );
}

#[test]
fn paths_name_their_subject() {
    assert_eq!(client().publish_bundle(), "/v1/devices/client/bundle");
    assert_eq!(fetch_bundle("bob"), "/v1/devices/bob/bundle");
    assert!(fetch_bundle_by_address("bob.1").ends_with("bob.1/bundle"));
    assert_eq!(receive_messages(-3), "/v1/messages?cursor=-3");
    assert_eq!(acknowledge(7), "/v1/messages/7/ack");
    assert!(message_status("m").contains("m"));
    assert_ne!(contact_path(true), contact_path(false));
    assert!(accept_contact("r").contains("/r/"));
    assert!(reject_contact("r").contains("/r/"));
}

#[test]
fn answers_are_checked() {
    assert!(parse_json(200, b"{}").is_ok());
    assert!(check_status(200, b"").is_ok());
    assert!(check_status(204, b"").is_err());
    assert_eq!(
        check_status(404, b"not found").unwrap_err(),
        ClientError::Refused {
            status: 404,
            body: text("not found")
        }
    );
    assert_eq!(
        parse_json(200, &vec![0; 16 * 1024 * 1024 + 1]).unwrap_err(),
        ClientError::ResponseTooLarge
    );
    assert_eq!(
        sent_message(&encode_test_binary_messages(&[])).unwrap_err(),
        ClientError::NoSentMessage
    );
    assert!(send_message("r", "m", vec![1], None).is_ok());
    assert!(matches!(
        send_message(&"r".repeat(300), "m", vec![1], None).unwrap_err(),
        ClientError::InvalidFrame(_)
    ));
}

#[test]
fn relay_messages_become_transport_messages() {
    let message = transport_message(RelayMessage {
        server_id: -7,
        sender: text("alice"),
        sender_address: None,
        message_id: text("m"),
        ciphertext: vec![1],
        accepted_at: 2,
        expires_at: None,
    });
    assert_eq!(message.transport_id, "-7");
    assert_eq!(transport_server_id(&message).unwrap(), -7);
    let odd = TransportMessage {
        transport_id: text("x"),
        ..message
    };
    assert_eq!(
        transport_server_id(&odd).unwrap_err(),
        ClientError::InvalidTransportId
    );
}

#[test]
fn delivery_statuses_are_known() {
    let status = |value: &str| RelayMessageStatus {
        message_id: text("m"),
        status: text(value),
    };
    assert_eq!(
        delivery_status(&status("sent")).unwrap(),
        DeliveryStatus::Sent
    );
    assert_eq!(
        delivery_status(&status("read")).unwrap(),
        DeliveryStatus::Read
    );
    assert_eq!(
        delivery_status(&status("lost")).unwrap_err(),
        ClientError::UnknownDeliveryStatus(text("lost"))
    );
}

#[test]
fn only_accepted_contacts_are_taken() {
    let responses = vec![contact("pending", "AQ"), contact("accepted", "Ag")];
    let accepted = accepted_contacts(&responses).unwrap();
    assert_eq!(accepted.len(), 1);
    assert_eq!(accepted[0].bundle, vec![2]);
    assert_eq!(
        contact_request(&contact("pending", "*")).unwrap_err(),
        ClientError::InvalidBase64
    );
}

#[test]
fn retries_are_bounded() {
    let mut retry = Retry::new();
    assert_eq!(retry.step(Attempt::Failed), RetryAction::Wait(250));
    assert_eq!(retry.step(Attempt::Answered(503)), RetryAction::Wait(500));
    assert_eq!(retry.step(Attempt::Failed), RetryAction::Wait(1_000));
    assert_eq!(retry.step(Attempt::Failed), RetryAction::GiveUp);
    let mut retry = Retry::new();
    assert_eq!(retry.step(Attempt::Answered(404)), RetryAction::Take);
}

#[test]
fn peers_are_found_by_their_relay_id_or_their_address() {
    let mut transport = RelayTransport::new(client(), TextTable::new());
    let bob = bundle(&[5]);
    assert_eq!(transport.recipient_for(&bob), "bob.1");
    assert_eq!(transport.sender_id_for(&bob), None);
    transport.set_peer_id("bob", text("sc-bob"));
    assert_eq!(transport.recipient_for(&bob), "sc-bob");
    assert_eq!(transport.sender_id_for(&bob), Some("sc-bob"));
    assert_eq!(transport.base_url(), "https://relay.example");
    assert_eq!(transport.client_id(), "client");
    assert!(!transport.is_registered());
    assert_eq!(transport.peer_ids().get("bob"), Some(&text("sc-bob")));
}

#[test]
fn fetched_bundles_must_match_and_are_kept_a_while() {
    let mut transport = RelayTransport::new(client(), TextTable::new());
    let bob = bundle(&[5]);
    let held = RelayBundle {
        device_id: text("sc-bob"),
        bundle: b64(&bob.encode().unwrap()),
    };
    assert!(transport.cached_peer_bundle(&bob, 0).is_none());
    assert_eq!(transport.fetch_peer_bundle(&bob, &held, 1_000).unwrap(), bob);
    assert_eq!(transport.cached_peer_bundle(&bob, 60_999).unwrap(), bob);
    assert!(transport.cached_peer_bundle(&bob, 61_000).is_none());
    assert_eq!(
        transport
            .fetch_peer_bundle(&bundle(&[6]), &held, 1_000)
            .unwrap_err(),
        ClientError::PeerMismatch
    );
    assert_eq!(transport.fetch_peer_bundle_by_id(&held, 5).unwrap(), bob);
    let garbled = RelayBundle {
        device_id: text("sc-bob"),
        bundle: text("AQ"),
    };
    assert!(matches!(
        decode_bundle(&garbled).unwrap_err(),
        ClientError::InvalidBundle(_)
    ));
}

#[test]
fn operators_reach_the_relay_by_https() {
    assert_eq!(
        allowlist_add_remote("https://relay.example//", false).unwrap(),
        "https://relay.example/v1/admin/allowlist"
    );
    assert_eq!(
        allowlist_add_remote("http://localhost:8080", true).unwrap(),
        "http://localhost:8080/v1/admin/allowlist"
    );
    assert_eq!(
        allowlist_add_remote("http://localhost:8080", false).unwrap_err(),
        ClientError::InsecureUrl
    );
    assert_eq!(
        allowlist_add_remote("no url", true).unwrap_err(),
        ClientError::InvalidUrl
    );
    assert_eq!(
        check_allowlist_url("relay", Some(text("ftp")), true).unwrap_err(),
        ClientError::InsecureUrl
    );
}

fn held(server_id: i64, ciphertext: &[u8]) -> Message {
    Message {
        server_id,
        sender: text("alice"),
        sender_address: None,
        message_id: format!("m{server_id}"),
        accepted_at: 1,
        expires_at: None,
        ciphertext: ciphertext.to_vec(),
    }
}

#[test]
fn the_smoke_client_registers_and_sends() {
    assert_eq!(
        smoke_url("https://localhost/", "/v1/messages"),
        "https://localhost/v1/messages"
    );
    assert_eq!(smoke_fingerprint("alice"), "smoke-alice");
    let draft = smoke_registration("alice", &b64(b"challenge")).unwrap();
    assert_eq!(draft.device_address, "alice.1");
    assert_eq!(draft.bundle, b64(b"opaque-smoke-bundle-alice"));
    assert_eq!(
        draft.payload,
        write_register_payload(
            "alice",
            "alice.1",
            b"opaque-smoke-bundle-alice",
            b"challenge"
        )
    );
    assert_eq!(
        smoke_registration("alice", "!").unwrap_err(),
        ClientError::InvalidBase64
    );
    let (message_id, body) = smoke_submit("alice", "bob", 17).unwrap();
    assert_eq!(message_id, "smoke-alice-17");
    let submit = decode_submit(&body).unwrap();
    assert_eq!(submit.recipient, "bob");
    assert_eq!(submit.message_id, "smoke-alice-17");
    assert_eq!(submit.expires_at, None);
    assert_eq!(submit.ciphertext, b"encrypted-smoke-payload");
    assert!(smoke_submit("alice", &"x".repeat(5000), 17).is_err());
}

#[test]
fn the_smoke_client_waits_for_its_message() {
    let other = encode_messages(&[held(1, b"other")]).unwrap();
    let both = encode_messages(&[
        held(1, b"other"),
        held(2, SMOKE_PAYLOAD.as_bytes()),
        held(3, SMOKE_PAYLOAD.as_bytes()),
    ])
    .unwrap();
    assert!(parse_binary_message(&other).is_none());
    assert!(parse_binary_message(b"noise").is_none());
    let found = parse_binary_message(&both).unwrap();
    assert_eq!(found.server_id, 2);
    assert_eq!(found.message_id, "m2");
    let mut poll = SmokePoll::new();
    assert_eq!(poll.step(None), PollAction::Ask);
    assert_eq!(poll.step(Some(&other)), PollAction::Wait(250));
    assert_eq!(poll.step(Some(&both)), PollAction::Acknowledge(found));
    let mut poll = SmokePoll::new();
    for _ in 1..MAX_POLLS {
        assert_eq!(poll.step(None), PollAction::Ask);
    }
    assert_eq!(poll.step(Some(&other)), PollAction::GiveUp);
}
