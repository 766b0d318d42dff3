use safechat::primitives::{b64, b64decode, hash};
use safechat::protocol::{decode_messages, encode_messages, encode_submit, Submit};
use safechat::relay_contacts::{
    check_answer_request, check_bundle_request, check_list_request, ContactRequestPayload,
};
use safechat::relay_enrollment::{
    assign_client_id, check_admin_request, choose_pending_enrollment, read_allowlist_identity,
    read_enrollment_claim, read_enrollment_identity, AdminAllowlistRequest, ChallengeRequest,
    ChoiceError, EnrollmentRequest, RegisterRequest,
};
use safechat::relay_events::{WsPollRequest, FAILED_POLL, INVALID_POLL, UNAUTHORIZED_POLL};
use safechat::relay_http::{
    bearer, binary_message, decode_bounded_base64, decode_message_request, encode_binary_messages,
    internal, media_type, replay, require_binary_accept, require_json_content,
    validate_json_accept, validate_optional_json_content, validate_text, wants_binary, Header,
    MediaType, MessageResponse, RequestHeaders,
};
use safechat::relay_mailbox::check_status_request;
use safechat::relay_signing::{
    write_enrollment_payload, write_register_payload, write_request_payload,
    ENROLLMENT_REQUEST_DOMAIN, REGISTER_DOMAIN, REQUEST_DOMAIN,
};
use safechat::relay_store::{DeviceRow, NonceRow, PendingRow, RelayStore};

const NOW: u64 = 1_700_000_000;

fn text(value: &str) -> String {
    value.to_owned()
}

fn json_headers() -> RequestHeaders {
    RequestHeaders {
        content_type: Header::Text(text("application/json")),
        accept: Header::Text(text("application/json")),
        ..RequestHeaders::empty()
    }
}

fn allow(store: &mut RelayStore, client_id: &str, identity: &[u8]) -> bool {
    let request = AdminAllowlistRequest {
        client_id: text(client_id),
        identity_key: b64(identity),
        fingerprint: text("fingerprint-a"),
        enrollment_secret: text("one-time-secret"),
        label: text("Alice"),
    };
    let identity = read_allowlist_identity(&request).unwrap();
    store.add_allowlist(request, identity, true, NOW)
}

fn register(store: &mut RelayStore, client_id: &str, identity: &[u8], address: &str) -> String {
    assert!(allow(store, client_id, identity));
    let challenge = store
        .challenge(
            &json_headers(),
            &ChallengeRequest {
                client_id: text(client_id),
                enrollment_secret: text("one-time-secret"),
            },
            NOW,
        )
        .unwrap();
    let request = RegisterRequest {
        client_id: text(client_id),
        device_address: text(address),
        identity_key: b64(identity),
        bundle: b64(b"bundle"),
        signature: b64(&[7; 64]),
    };
    let known = store
        .read_register_identity(&json_headers(), &request)
        .unwrap();
    assert_eq!(known, identity);
    let claim = store
        .read_register_claim(&request, Some(known), NOW)
        .unwrap();
    assert_eq!(
        claim.payload,
        write_register_payload(
            client_id,
            address,
            b"bundle",
            &b64decode(&challenge.challenge).unwrap()
        )
    );
    let answer = store.register(request, claim.bundle, true, NOW).unwrap();
    assert_eq!(answer.device_id, client_id);
    assert_eq!(answer.api_version, "safechat-relay-v1");
    answer.access_token
}

fn signed_headers(token: &str, nonce: &str, timestamp: u64) -> RequestHeaders {
    RequestHeaders {
        authorization: Header::Text(format!("Bearer {token}")),
        nonce: Header::Text(text(nonce)),
        timestamp: Header::Text(timestamp.to_string()),
        signature: Header::Text(b64(&[7; 64])),
        ..RequestHeaders::empty()
    }
}

fn submit(recipient: &str, message_id: &str, ciphertext: &[u8]) -> Submit {
    Submit {
        recipient: text(recipient),
        message_id: text(message_id),
        expires_at: None,
        ciphertext: ciphertext.to_vec(),
    }
}

fn two_devices() -> RelayStore {
    let mut store = RelayStore::new();
    register(&mut store, "alice", &[1; 33], "Alice.1");
    register(&mut store, "bob", &[2; 33], "Bob.1");
    store
}

#[test]
fn allowlist_stores_only_the_enrollment_secret_hash() {
    let mut store = RelayStore::new();
    let request = AdminAllowlistRequest {
        client_id: text("client-a"),
        identity_key: b64(&[5; 33]),
        fingerprint: text("fingerprint-a"),
        enrollment_secret: text("one-time-secret"),
        label: text("Alice"),
    };
    let identity = read_allowlist_identity(&request).unwrap();
    assert!(store.add_allowlist(request, identity, true, NOW));
    let stored = store.allowlist.get("client-a").unwrap();
    assert_eq!(stored.secret_hash, hash("one-time-secret"));
    assert_ne!(stored.secret_hash, "one-time-secret");
    assert!(!stored.used);
}

#[test]
fn enrollment_approval_promotes_pending_request_without_plaintext_secret() {
    let mut store = RelayStore::new();
    store.pending.put(
        "client-a",
        PendingRow {
            device_address: text("Alice.1"),
            identity_key: vec![5; 33],
            fingerprint: text("fingerprint-a"),
            bundle: b"bundle".to_vec(),
            secret_hash: hash("secret"),
            created_at: NOW as i64,
            expires_at: NOW as i64 + 900,
        },
    );
    assert!(store.approve_enrollment("client-a", NOW));
    let stored = store.allowlist.get("client-a").unwrap();
    assert_eq!(stored.secret_hash, hash("secret"));
    assert!(stored.active);
    assert!(!stored.used);
    assert!(!store.approve_enrollment("client-a", NOW));
}

#[test]
fn request_signature_payload_is_domain_separated() {
    let payload = write_request_payload("GET", "/v1/messages", b"body", "nonce", 42);
    let mut expected = REQUEST_DOMAIN.as_bytes().to_vec();
    expected.extend(b"GET");
    expected.push(0);
    expected.extend(b"/v1/messages");
    expected.push(0);
    let digest = hash("body");
    for index in 0..32 {
        expected.push(u8::from_str_radix(&digest[2 * index..2 * index + 2], 16).unwrap());
    }
    expected.extend(b"nonce");
    expected.push(0);
    expected.extend(42u64.to_be_bytes());
    assert_eq!(payload, expected);
    assert!(payload.starts_with(REQUEST_DOMAIN.as_bytes()));
    assert_ne!(payload, [&b"GET"[..], b"/v1/messages"].concat());
}

#[test]
fn json_and_binary_message_representations_are_equivalent() {
    let json_message = MessageResponse {
        server_id: 7,
        sender: "alice".into(),
        sender_address: Some("Alice.1".into()),
        message_id: "message-1".into(),
        ciphertext: b64(&[0, 1, 255]),
        accepted_at: 42,
        expires_at: Some(99),
    };
    let binary = encode_messages(&[binary_message(&json_message).unwrap()]).unwrap();
    let binary_round_trip = decode_messages(&binary).unwrap().pop().unwrap();
    assert_eq!(json_message.server_id, binary_round_trip.server_id);
    assert_eq!(json_message.sender, binary_round_trip.sender);
    assert_eq!(
        json_message.sender_address,
        binary_round_trip.sender_address
    );
    assert_eq!(json_message.message_id, binary_round_trip.message_id);
    assert_eq!(json_message.accepted_at, binary_round_trip.accepted_at);
    assert_eq!(json_message.expires_at, binary_round_trip.expires_at);
    assert_eq!(
        b64decode(&json_message.ciphertext).unwrap(),
        binary_round_trip.ciphertext
    );
    assert_eq!(encode_binary_messages(&[json_message]).unwrap(), binary);
}

#[test]
fn invalid_stored_ciphertext_is_not_replaced_with_empty_bytes() {
    let message = MessageResponse {
        server_id: 1,
        sender: "alice".into(),
        sender_address: None,
        message_id: "message".into(),
        ciphertext: "not-base64!".into(),
        accepted_at: 1,
        expires_at: None,
    };
    assert!(binary_message(&message).is_none());
}

#[test]
fn unsupported_message_media_types_are_rejected() {
    let mut headers = RequestHeaders::empty();
    headers.content_type = Header::Text(text("text/plain"));
    assert!(decode_message_request(&headers, b"{}").is_err());
    headers.content_type = Header::Text(text("application/json"));
    assert!(decode_message_request(&headers, b"{}").is_err());
    headers = RequestHeaders::empty();
    headers.accept = Header::Text(text("text/plain"));
    assert!(wants_binary(&headers).is_err());
    headers.accept = Header::Text(text("application/octet-stream;q=0"));
    assert!(wants_binary(&headers).is_err());
}

#[test]
fn response_negotiation_does_not_follow_request_encoding() {
    let mut headers = RequestHeaders::empty();
    headers.content_type = Header::Text(text("application/octet-stream"));
    headers.accept = Header::Text(text("application/json"));
    assert!(require_binary_accept(&headers).is_err());
}

#[test]
fn internal_errors_are_not_returned_to_clients() {
    let error = internal("database is locked at /secret/path");
    assert_eq!(error.status, 500);
    assert_eq!(error.message, "internal server error");
}

#[test]
fn expired_nonces_are_cleaned_when_a_signed_request_is_verified() {
    let mut store = RelayStore::new();
    let token = register(&mut store, "client", &[5; 33], "Client.1");
    store.nonces.push(NonceRow {
        client_id: text("client"),
        nonce: text("expired"),
        expires_at: NOW as i64 - 1,
    });
    let request = store
        .authenticate_request(
            &signed_headers(&token, "fresh", NOW),
            "GET",
            "/v1/test",
            b"body",
            None,
            NOW,
        )
        .unwrap();
    assert_eq!(
        request.payload,
        write_request_payload("GET", "/v1/test", b"body", "fresh", NOW)
    );
    assert_eq!(request.identity_key, vec![5; 33]);
    store.accept_request(&request, true, NOW).unwrap();
    assert_eq!(
        store
            .nonces
            .iter()
            .filter(|row| row.nonce == "expired")
            .count(),
        0
    );
    assert_eq!(store.nonces.len(), 1);
}

#[test]
fn duplicate_message_ids_are_idempotently_stored_once() {
    let mut store = two_devices();
    let first = store
        .send("alice", submit("bob", "m", b"cipher"), 1)
        .unwrap();
    let second = store
        .send("alice", submit("bob", "m", b"other"), 2)
        .unwrap();
    assert_eq!(store.messages.len(), 1);
    assert_eq!(store.messages[0].ciphertext, b"cipher");
    let first = decode_messages(&first).unwrap().pop().unwrap();
    let second = decode_messages(&second).unwrap().pop().unwrap();
    assert_eq!(first.server_id, second.server_id);
    assert_eq!(second.ciphertext, b"cipher");
    assert_eq!(second.accepted_at, first.accepted_at);
}

#[test]
fn a_secret_enrolls_one_device() {
    let mut store = RelayStore::new();
    register(&mut store, "client", &[5; 33], "Client.1");
    assert_eq!(store.devices.len(), 1);
    assert!(store.allowlist.get("client").unwrap().used);
    let again = store.challenge(
        &json_headers(),
        &ChallengeRequest {
            client_id: text("client"),
            enrollment_secret: text("one-time-secret"),
        },
        NOW,
    );
    assert_eq!(again.unwrap_err().status, 401);
}

#[test]
fn a_challenge_needs_the_secret_and_runs_out() {
    let mut store = RelayStore::new();
    allow(&mut store, "client", &[5; 33]);
    let wrong = store.challenge(
        &json_headers(),
        &ChallengeRequest {
            client_id: text("client"),
            enrollment_secret: text("another"),
        },
        NOW,
    );
    assert_eq!(wrong.unwrap_err().status, 401);
    let answer = store
        .challenge_with(
            &json_headers(),
            &ChallengeRequest {
                client_id: text("client"),
                enrollment_secret: text("one-time-secret"),
            },
            vec![1, 2, 3],
            NOW,
        )
        .unwrap();
    assert_eq!(answer.challenge, "AQID");
    assert_eq!(answer.expires_at, NOW + 300);
    let request = RegisterRequest {
        client_id: text("client"),
        device_address: text("Client.1"),
        identity_key: b64(&[5; 33]),
        bundle: b64(b"bundle"),
        signature: b64(&[7; 64]),
    };
    let late = store.read_register_claim(&request, Some(vec![5; 33]), NOW + 301);
    assert_eq!(late.unwrap_err().status, 401);
    let other = store.read_register_claim(&request, Some(vec![6; 33]), NOW);
    assert_eq!(other.unwrap_err().status, 401);
    let claim = store
        .read_register_claim(&request, Some(vec![5; 33]), NOW + 300)
        .unwrap();
    let refused = store.register_with(request, claim.bundle, false, &[9; 32], NOW);
    assert_eq!(refused.unwrap_err().status, 401);
    assert!(store.devices.is_empty());
}

#[test]
fn a_signed_request_is_taken_once() {
    let mut store = RelayStore::new();
    let token = register(&mut store, "client", &[5; 33], "Client.1");
    let headers = signed_headers(&token, "nonce", NOW);
    let request = store
        .authenticate_request(&headers, "GET", "/v1/messages", b"", None, NOW)
        .unwrap();
    assert_eq!(
        store.accept_request(&request, false, NOW).unwrap_err().status,
        401
    );
    store.accept_request(&request, true, NOW).unwrap();
    let error = store.accept_request(&request, true, NOW + 600).unwrap_err();
    assert_eq!(error.status, replay().status);
    assert_eq!(error.message, replay().message);
    assert!(store
        .authenticate_request(&headers, "GET", "/v1/messages", b"", None, NOW + 301)
        .is_err());
    assert!(store
        .authenticate_request(&headers, "GET", "/v1/messages", b"", Some("other"), NOW)
        .is_err());
    assert!(store
        .authenticate_request(
            &signed_headers("wrong", "nonce", NOW),
            "GET",
            "/v1/messages",
            b"",
            None,
            NOW
        )
        .is_err());
}

#[test]
fn a_revoked_client_is_shut_out() {
    let mut store = RelayStore::new();
    let token = register(&mut store, "client", &[5; 33], "Client.1");
    assert!(store.revoke("client"));
    assert!(store
        .authenticate_request(
            &signed_headers(&token, "nonce", NOW),
            "GET",
            "/v1/messages",
            b"",
            None,
            NOW
        )
        .is_err());
    assert!(!store.revoke("nobody"));
}

#[test]
fn messages_wait_until_they_are_acknowledged() {
    let mut store = two_devices();
    assert_eq!(
        store
            .send("alice", submit("nobody", "m", b"c"), NOW)
            .unwrap_err()
            .status,
        404
    );
    store
        .send("alice", submit("Bob.1", "m", b"cipher"), NOW)
        .unwrap();
    let frame = store.receive("bob", None, NOW).unwrap();
    let messages = decode_messages(&frame).unwrap();
    assert_eq!(messages.len(), 1);
    assert_eq!(messages[0].sender, "alice");
    assert_eq!(messages[0].sender_address, Some(text("Alice.1")));
    assert_eq!(messages[0].ciphertext, b"cipher");
    assert_eq!(messages[0].accepted_at, NOW);
    assert!(store.poll("alice", 0).is_empty());
    assert!(store.poll("bob", messages[0].server_id).is_empty());
    assert_eq!(store.status("alice", text("m")).unwrap().status, "sent");

    assert!(store
        .acknowledge("alice", messages[0].server_id, true, NOW)
        .is_err());
    assert!(store
        .acknowledge("bob", messages[0].server_id, false, NOW)
        .is_err());
    store
        .acknowledge("bob", messages[0].server_id, true, NOW)
        .unwrap();
    assert!(store.poll("bob", 0).is_empty());
    assert_eq!(store.status("alice", text("m")).unwrap().status, "read");
    assert_eq!(
        store.status("bob", text("m")).unwrap_err().status,
        404
    );
}

#[test]
fn messages_run_out() {
    let mut store = two_devices();
    let message = Submit {
        expires_at: Some(NOW + 10),
        ..submit("bob", "m", b"c")
    };
    store.send("alice", message, NOW).unwrap();
    let frame = store.receive("bob", Some(0), NOW + 9).unwrap();
    assert_eq!(decode_messages(&frame).unwrap().len(), 1);
    let frame = store.receive("bob", Some(0), NOW + 11).unwrap();
    assert!(decode_messages(&frame).unwrap().is_empty());
    assert!(store.messages.is_empty());
}

#[test]
fn enrollment_requests_get_an_assigned_client_id() {
    let mut store = RelayStore::new();
    let secret_hash = hash("secret");
    let request = EnrollmentRequest {
        device_address: text("Alice.1"),
        identity_key: b64(&[5; 33]),
        fingerprint: text("fingerprint-a"),
        bundle: b64(b"bundle"),
        enrollment_secret_hash: secret_hash.clone(),
        signature: b64(&[7; 64]),
    };
    let identity = read_enrollment_identity(&json_headers(), &request).unwrap();
    assert!(read_enrollment_claim(&request, false).is_err());
    let claim = read_enrollment_claim(&request, true).unwrap();
    assert_eq!(
        claim.payload,
        write_enrollment_payload("Alice.1", "fingerprint-a", &secret_hash, b"bundle")
    );
    let canonical = identity.clone();
    let answer = store
        .enrollment_request(request, identity, &canonical, claim, true, NOW)
        .unwrap();
    assert!(answer.accepted);
    assert!(answer.client_id.starts_with("sc-"));
    assert_eq!(answer.client_id, assign_client_id(&[5; 33]));
    assert_eq!(answer.expires_at, NOW + 900);
    assert!(!store.approve_enrollment(&answer.client_id, NOW + 901));
    assert!(store.reject_enrollment(&answer.client_id));
    assert!(!store.reject_enrollment(&answer.client_id));
}

#[test]
fn an_operator_chooses_from_the_pending_requests() {
    let clients = vec![text("a"), text("b")];
    assert_eq!(choose_pending_enrollment(&clients, " 2\n").unwrap(), "b");
    assert_eq!(
        choose_pending_enrollment(&clients, "3").unwrap_err(),
        ChoiceError::OutOfRange
    );
    assert_eq!(
        choose_pending_enrollment(&clients, "x").unwrap_err(),
        ChoiceError::NotANumber
    );
    assert_eq!(
        choose_pending_enrollment(&vec![], "1").unwrap_err(),
        ChoiceError::NothingPending
    );
}

#[test]
fn pending_requests_are_shown_oldest_first() {
    let mut store = RelayStore::new();
    let waiting = |created_at: i64, expires_at: i64| PendingRow {
        device_address: format!("device-{created_at}"),
        identity_key: vec![1],
        fingerprint: format!("fingerprint-{created_at}"),
        bundle: vec![],
        secret_hash: text("secret"),
        created_at,
        expires_at,
    };
    store.pending.put("late", waiting(30, 100));
    store.pending.put("gone", waiting(20, 49));
    store.pending.put("early", waiting(10, 50));
    let list = store.pending_enrollments(50);
    let ids: Vec<&str> = list.iter().map(|entry| entry.client_id.as_str()).collect();
    assert_eq!(ids, ["early", "late"]);
    assert_eq!(list[0].device_address, "device-10");
    assert_eq!(list[0].fingerprint, "fingerprint-10");
    assert_eq!(list[0].created_at, 10);
    assert_eq!(list[0].expires_at, 50);
    assert!(store.pending_enrollments(101).is_empty());
}

#[test]
fn administration_needs_the_token() {
    let request = AdminAllowlistRequest {
        client_id: text("client"),
        identity_key: b64(&[5; 33]),
        fingerprint: text("fp"),
        enrollment_secret: text("secret"),
        label: text("Client"),
    };
    let mut headers = json_headers();
    assert!(check_admin_request(&headers, &request, &Some(text("admin"))).is_err());
    headers.authorization = Header::Text(text("Bearer admin"));
    assert!(check_admin_request(&headers, &request, &None).is_err());
    assert!(check_admin_request(&headers, &request, &Some(text("other"))).is_err());
    assert_eq!(
        check_admin_request(&headers, &request, &Some(text("admin"))).unwrap(),
        vec![5; 33]
    );
}

#[test]
fn contacts_are_asked_for_and_answered_by_the_recipient() {
    let mut store = two_devices();
    let payload = ContactRequestPayload {
        request_id: text("r"),
        recipient: text("bob"),
        sender_name: text("Alice"),
        sender_fingerprint: text("fp"),
        bundle: b64(b"bundle"),
    };
    let created = store.create_contact("alice", payload, NOW).unwrap();
    assert_eq!(created.status, "pending");
    assert_eq!(created.created_at, NOW);
    assert_eq!(store.list_contacts("bob", false, NOW).len(), 1);
    assert_eq!(store.list_contacts("alice", true, NOW).len(), 1);
    assert!(store.list_contacts("alice", false, NOW).is_empty());
    assert!(store.accept_contact("alice", "r").is_err());
    let accepted = store.accept_contact("bob", "r").unwrap();
    assert_eq!(accepted.status, "accepted");
    assert_eq!(accepted.sender_id, "alice");
    let seen = store.list_contacts("alice", true, NOW);
    assert_eq!(seen[0].status, "accepted");
}

#[test]
fn a_rejected_contact_stays_rejected() {
    let mut store = two_devices();
    let payload = ContactRequestPayload {
        request_id: text("r"),
        recipient: text("bob"),
        sender_name: text("Alice"),
        sender_fingerprint: text("fp"),
        bundle: b64(b"bundle"),
    };
    store.create_contact("alice", payload, NOW).unwrap();
    store.reject_contact("bob", "r");
    let answer = store.accept_contact("bob", "r").unwrap();
    assert_eq!(answer.status, "rejected");
    assert!(store.list_contacts("bob", false, NOW).is_empty());
}

#[test]
fn bundles_are_published_by_their_device() {
    let mut store = two_devices();
    let held = store.fetch_bundle("alice").unwrap();
    assert_eq!(held.bundle, b64(b"bundle"));
    store
        .publish_bundle("alice", b64(b"fresh"), NOW)
        .unwrap();
    assert_eq!(store.fetch_bundle("alice").unwrap().bundle, b64(b"fresh"));
    assert_eq!(
        store.fetch_bundle_by_address("Alice.1").unwrap().device_id,
        "alice"
    );
    assert_eq!(store.fetch_bundle("nobody").unwrap_err().status, 404);
    assert!(store.publish_bundle("alice", text("*"), NOW).is_err());
}

#[test]
fn each_client_has_one_device() {
    let mut store = RelayStore::new();
    store.devices.push(DeviceRow {
        client_id: text("client"),
        identity_key: vec![5; 33],
        device_address: text("Old.1"),
        token_hash: text("old"),
        bundle: vec![],
        last_seen_at: 0,
    });
    register(&mut store, "client", &[5; 33], "Client.1");
    assert_eq!(store.devices.len(), 1);
    assert_eq!(store.devices[0].device_address, "Client.1");
}

#[test]
fn headers_are_negotiated() {
    let mut headers = RequestHeaders::empty();
    assert_eq!(media_type(&headers), Ok(None));
    assert!(require_json_content(&headers).is_err());
    assert!(validate_optional_json_content(&headers).is_ok());
    headers.content_type = Header::Text(text("application/json; charset=utf-8"));
    assert_eq!(media_type(&headers), Ok(Some(MediaType::Json)));
    headers.content_type = Header::Text(text("application/octet-stream"));
    assert_eq!(media_type(&headers), Ok(Some(MediaType::Binary)));
    assert!(validate_optional_json_content(&headers).is_err());
    headers.content_type = Header::Unreadable;
    assert!(media_type(&headers).is_err());
    headers.accept = Header::Text(text("application/octet-stream"));
    assert_eq!(wants_binary(&headers), Ok(true));
    assert!(validate_json_accept(&headers).is_err());
    assert_eq!(bearer(&headers), None);
    headers.authorization = Header::Text(text("Bearer token"));
    assert_eq!(bearer(&headers), Some(text("token")));
}

#[test]
fn binary_submissions_are_read() {
    let headers = RequestHeaders {
        content_type: Header::Text(text("application/octet-stream")),
        ..RequestHeaders::empty()
    };
    let value = submit("bob", "m", b"cipher");
    let frame = encode_submit(&value).unwrap();
    assert_eq!(decode_message_request(&headers, &frame).unwrap(), value);
    assert!(decode_message_request(&headers, &frame[1..]).is_err());
}

#[test]
fn fields_are_bounded() {
    assert!(validate_text("abc", 3, "label").is_ok());
    assert!(validate_text("abcd", 3, "label").is_err());
    assert!(validate_text("", 3, "label").is_ok());
    assert_eq!(
        validate_text("abcd", 3, "label").unwrap_err(),
        "label exceeds maximum length of 3 bytes"
    );
    assert_eq!(
        decode_bounded_base64("AQID", 4, 3, "key").unwrap(),
        vec![1, 2, 3]
    );
    assert!(decode_bounded_base64("AQID", 3, 3, "key").is_err());
    assert!(decode_bounded_base64("AQID", 4, 2, "key").is_err());
    assert!(decode_bounded_base64("*", 4, 2, "key").is_err());
}

#[test]
fn request_paths_are_checked() {
    let headers = json_headers();
    assert!(check_status_request(&headers, "m").is_ok());
    assert!(check_status_request(&headers, &"m".repeat(257)).is_err());
    assert_eq!(check_list_request(&headers, None).unwrap(), false);
    assert_eq!(check_list_request(&headers, Some("outgoing")).unwrap(), true);
    assert!(check_list_request(&headers, Some("sideways")).is_err());
    assert!(check_answer_request(&headers, &"r".repeat(257)).is_err());
    assert!(check_bundle_request(&headers, "client", "device ID").is_ok());
}

#[test]
fn signing_domains_differ() {
    let request = write_request_payload("POST", "/v1", b"", "n", 1);
    let registration = write_register_payload("c", "a", b"", b"x");
    let enrollment = write_enrollment_payload("a", "f", "h", b"");
    assert!(request.starts_with(REQUEST_DOMAIN.as_bytes()));
    assert!(registration.starts_with(REGISTER_DOMAIN.as_bytes()));
    assert!(enrollment.starts_with(ENROLLMENT_REQUEST_DOMAIN.as_bytes()));
    assert!(!request.starts_with(REGISTER_DOMAIN.as_bytes()));
    assert!(!registration.starts_with(ENROLLMENT_REQUEST_DOMAIN.as_bytes()));
}

#[test]
fn a_poll_is_signed_as_a_whole() {
    let mut store = RelayStore::new();
    register(&mut store, "client", &[5; 33], "Client.1");
    let mut poll = WsPollRequest {
        cursor: -3,
        nonce: text("a\"b\\c\n\u{1}\u{1f}\u{e9}/"),
        timestamp: NOW,
        signature: b64(&[9; 64]),
    };
    let request = store.verify_websocket_request("client", &poll, NOW).unwrap();
    let body = "{\"cursor\":-3,\"nonce\":\"a\\\"b\\\\c\\n\\u0001\\u001f\u{e9}/\",\"timestamp\":1700000000}";
    assert_eq!(
        request.payload,
        write_request_payload("WS", "/v1/events", body.as_bytes(), &poll.nonce, NOW)
    );
    assert_eq!(request.identity_key, vec![5; 33]);
    assert_eq!(request.signature, vec![9; 64]);
    store.accept_request(&request, true, NOW).unwrap();
    assert_eq!(
        store.accept_request(&request, true, NOW).unwrap_err().status,
        409
    );
    assert_eq!(
        store
            .verify_websocket_request("nobody", &poll, NOW)
            .unwrap_err()
            .status,
        401
    );
    poll.timestamp = NOW + 301;
    assert_eq!(
        store
            .verify_websocket_request("client", &poll, NOW)
            .unwrap_err()
            .status,
        401
    );
    assert_eq!(INVALID_POLL, r#"{"error":"invalid websocket request"}"#);
    assert_eq!(UNAUTHORIZED_POLL, r#"{"error":"unauthorized"}"#);
    assert_eq!(FAILED_POLL, r#"{"error":"internal server error"}"#);
}
