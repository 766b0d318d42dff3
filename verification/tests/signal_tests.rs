use safechat::bundle::{IdentityRecoveryRecord, OneTimePreKey, SignalPreKeyBundle};
use safechat::signal::{
    upstream_revision, FramedMessage, MessageId, PeerAddress, SafeChatMessage, SignalEnvelope,
    SignalError, FORMAT_VERSION, FRAME_ENVELOPE, FRAME_MESSAGE, FRAME_MESSAGE_COMPRESSED,
    MAX_BUNDLE_FIELD_LEN, MAX_MESSAGE_LEN, MIN_COMPRESSIBLE_MESSAGE_LEN, PREKEY_TYPE,
    WHISPER_TYPE,
};

fn bundle() -> SignalPreKeyBundle {
    SignalPreKeyBundle {
        name: "bob".to_owned(),
        device_id: 1,
        registration_id: 7,
        pre_key: Some(OneTimePreKey {
            id: 4,
            public_key: vec![5, 1],
        }),
        signed_pre_key_id: 2,
        signed_pre_key_public: vec![5, 2],
        signed_pre_key_signature: vec![6; 64],
        kyber_pre_key_id: 3,
        kyber_pre_key_public: vec![8; 100],
        kyber_pre_key_signature: vec![9; 64],
        identity_key: vec![5, 0xab, 0x01],
    }
}

#[test]
fn signal_adapter_envelope_round_trip_is_bounded_and_typed() {
    let envelope = SignalEnvelope {
        message_type: WHISPER_TYPE,
        ciphertext: vec![1, 2, 3, 4],
    };
    let encoded = envelope.encode().unwrap();
    assert_eq!(SignalEnvelope::decode(&encoded).unwrap(), envelope);
}

#[test]
fn signal_adapter_envelope_rejects_trailing_bytes_and_unknown_types() {
    let envelope = SignalEnvelope {
        message_type: WHISPER_TYPE,
        ciphertext: vec![1, 2, 3],
    };
    let mut encoded = envelope.encode().unwrap();
    encoded.push(0);
    assert!(SignalEnvelope::decode(&encoded).is_err());

    let invalid = SignalEnvelope {
        message_type: 99,
        ciphertext: vec![],
    };
    assert!(invalid.encode().is_err());
}

#[test]
fn message_id_round_trip_is_bound_to_authenticated_payload() {
    let message = SafeChatMessage::new(b"hello");
    let decoded = SafeChatMessage::decode(&message.encode().unwrap()).unwrap();
    assert_eq!(decoded, message);
    assert_eq!(decoded.plaintext, b"hello");
    assert_eq!(decoded.id.encode().len(), 32);
    assert!(SafeChatMessage::decode(&[FORMAT_VERSION, FRAME_MESSAGE]).is_err());
}

#[test]
fn repetitive_messages_are_compressed_and_round_trip() {
    let message = SafeChatMessage::new(&vec![b'a'; 100_000]);
    let encoded = message.encode().unwrap();
    assert_eq!(encoded[0..2], [FORMAT_VERSION, FRAME_MESSAGE_COMPRESSED]);
    assert_eq!(SafeChatMessage::decode(&encoded).unwrap(), message);
    assert!(encoded.len() < 1000);
}

#[test]
fn small_repetitive_messages_are_not_compressed() {
    let message = SafeChatMessage::new(&vec![b'a'; MIN_COMPRESSIBLE_MESSAGE_LEN - 1]);
    let encoded = message.encode().unwrap();
    assert_eq!(encoded[0..2], [FORMAT_VERSION, FRAME_MESSAGE]);
    assert_eq!(SafeChatMessage::decode(&encoded).unwrap(), message);
}

#[test]
fn incompressible_messages_keep_v1_compatibility() {
    let mut bytes = vec![0u8; 1024];
    let mut state = 0x9e3779b9u32;
    for byte in &mut bytes {
        state = state.wrapping_mul(1_664_525).wrapping_add(1_013_904_223);
        *byte = (state >> 24) as u8;
    }
    let message = SafeChatMessage::new(&bytes);
    let encoded = message.encode().unwrap();
    assert_eq!(encoded[0..2], [FORMAT_VERSION, FRAME_MESSAGE]);
    assert_eq!(SafeChatMessage::decode(&encoded).unwrap(), message);
}

#[test]
fn public_signal_envelope_round_trips_without_private_state() {
    let message = SafeChatMessage::new(b"public api test");
    let envelope = SignalEnvelope {
        ciphertext: message.encode().expect("encode message"),
        message_type: WHISPER_TYPE,
    };
    let decoded = SignalEnvelope::decode(&envelope.encode().expect("encode envelope"))
        .expect("decode envelope");
    assert_eq!(decoded.message_type, WHISPER_TYPE);
    assert_eq!(
        SafeChatMessage::decode(&decoded.ciphertext)
            .expect("decode message")
            .plaintext,
        b"public api test"
    );
}

#[test]
fn public_message_ids_are_non_empty_and_stable_when_encoded() {
    let id = MessageId::generate();
    let encoded = id.encode();
    assert!(!encoded.is_empty());
    assert_eq!(encoded.len(), 32);
}

#[test]
fn message_ids_are_drawn_afresh() {
    assert_ne!(MessageId::generate().bytes(), MessageId::generate().bytes());
}

#[test]
fn message_ids_are_written_in_hexadecimal() {
    let id = MessageId::from_bytes(&[0, 1, 2, 3, 4, 5, 6, 7, 8, 9, 10, 11, 12, 13, 254, 255]).unwrap();
    assert_eq!(id.encode(), "000102030405060708090a0b0c0dfeff");
    assert_eq!(id.bytes()[15], 255);
    assert_eq!(
        MessageId::from_bytes(&[0; 15]).unwrap_err(),
        SignalError::InvalidMessageIdLength
    );
}

#[test]
fn envelope_frame_has_an_exact_layout() {
    let envelope = SignalEnvelope::from_ciphertext(PREKEY_TYPE, vec![9, 8]).unwrap();
    assert_eq!(
        envelope.encode().unwrap(),
        vec![FORMAT_VERSION, FRAME_ENVELOPE, 3, 0, 0, 0, 2, 9, 8]
    );
    assert_eq!(
        SignalEnvelope::from_ciphertext(1, vec![]).unwrap_err(),
        SignalError::UnsupportedCiphertextType
    );
    assert_eq!(
        SignalEnvelope::decode(&[FORMAT_VERSION, FRAME_ENVELOPE, 2]).unwrap_err(),
        SignalError::InvalidEnvelope
    );
    assert_eq!(
        SignalEnvelope::decode(&[FORMAT_VERSION, FRAME_ENVELOPE, 2, 0, 0, 0, 1]).unwrap_err(),
        SignalError::InvalidEnvelopeLength
    );
}

#[test]
fn message_frame_has_an_exact_layout() {
    let id = MessageId::from_bytes(&[7; 16]).unwrap();
    let message = SafeChatMessage {
        id,
        plaintext: vec![b'h', b'i'],
    };
    let frame = message.encode().unwrap();
    let mut expected = vec![FORMAT_VERSION, FRAME_MESSAGE];
    expected.extend_from_slice(&[7; 16]);
    expected.extend_from_slice(&[0, 0, 0, 2, 0, 0, 0, 2, b'h', b'i']);
    assert_eq!(frame, expected);
    assert_eq!(
        message.frame(None).unwrap_err(),
        SignalError::CompressionFailed
    );
}

#[test]
fn message_faults_are_told_apart() {
    assert_eq!(
        SafeChatMessage::decode(&[FORMAT_VERSION]).unwrap_err(),
        SignalError::TruncatedMessage
    );
    assert_eq!(
        SafeChatMessage::decode(&[FORMAT_VERSION + 1, FRAME_MESSAGE]).unwrap_err(),
        SignalError::UnsupportedMessageVersion
    );
    assert_eq!(
        SafeChatMessage::decode(&[FORMAT_VERSION, FRAME_ENVELOPE]).unwrap_err(),
        SignalError::UnsupportedMessageFrame
    );
    assert_eq!(
        SafeChatMessage::decode(&[FORMAT_VERSION, FRAME_MESSAGE_COMPRESSED]).unwrap_err(),
        SignalError::TruncatedCompressedMessage
    );
    let mut compressed = SafeChatMessage::new(&[b'a'; 4000]).encode().unwrap();
    compressed[21] = compressed[21].wrapping_add(1);
    assert_eq!(
        SafeChatMessage::decode(&compressed).unwrap_err(),
        SignalError::DecompressedLengthMismatch
    );
    let mut garbled = SafeChatMessage::new(&[b'a'; 4000]).encode().unwrap();
    for byte in garbled[26..].iter_mut() {
        *byte = 0xff;
    }
    assert_eq!(
        SafeChatMessage::decode(&garbled).unwrap_err(),
        SignalError::DecompressionFailed
    );
    let mut cut = SafeChatMessage::new(&[b'a'; 4000]).encode().unwrap();
    cut.pop();
    assert_eq!(
        SafeChatMessage::decode(&cut).unwrap_err(),
        SignalError::InvalidCompressedLength
    );
    assert_eq!(
        SafeChatMessage::new(&vec![0; MAX_MESSAGE_LEN + 1])
            .encode()
            .unwrap_err(),
        SignalError::MessageTooLong
    );
}

#[test]
fn framed_messages_are_put_together_from_what_was_inflated() {
    let message = SafeChatMessage::new(&[b'b'; 300]);
    let frame = message.frame(Some(vec![1, 2, 3])).unwrap();
    let parts = FramedMessage::split(&frame).unwrap();
    assert!(parts.compressed);
    assert_eq!(parts.length, 300);
    assert_eq!(parts.stored, vec![1, 2, 3]);
    assert_eq!(parts.join(Some(vec![b'b'; 300])).unwrap(), message);
}

#[test]
fn peer_addresses_have_a_name_and_a_device() {
    let address = PeerAddress::new("bob".to_owned(), 12).unwrap();
    assert_eq!(address.text(), "bob.12");
    assert_eq!(address.name(), "bob");
    assert_eq!(address.device_id(), 12);
    assert_eq!(
        PeerAddress::new(String::new(), 1).unwrap_err(),
        SignalError::EmptyPeerName
    );
    assert_eq!(
        PeerAddress::new("bob".to_owned(), 0).unwrap_err(),
        SignalError::ZeroDeviceId
    );
}

#[test]
fn bundles_round_trip() {
    let value = bundle();
    let frame = value.encode().unwrap();
    assert_eq!(SignalPreKeyBundle::decode(&frame).unwrap(), value);
    assert_eq!(value.address(), "bob.1");
    assert_eq!(value.fingerprint(), "05ab01");
    let without = SignalPreKeyBundle {
        pre_key: None,
        ..value
    };
    assert_eq!(
        SignalPreKeyBundle::decode(&without.encode().unwrap()).unwrap(),
        without
    );
}

#[test]
fn bundle_faults_are_told_apart() {
    let mut frame = bundle().encode().unwrap();
    frame.push(0);
    assert_eq!(
        SignalPreKeyBundle::decode(&frame).unwrap_err(),
        SignalError::TrailingBundleBytes
    );
    frame.truncate(20);
    assert_eq!(
        SignalPreKeyBundle::decode(&frame).unwrap_err(),
        SignalError::Truncated
    );
    frame[1] = 1;
    assert_eq!(
        SignalPreKeyBundle::decode(&frame).unwrap_err(),
        SignalError::InvalidFrame
    );
    let mut name = bundle().encode().unwrap();
    name[6] = 0xff;
    assert_eq!(
        SignalPreKeyBundle::decode(&name).unwrap_err(),
        SignalError::NameNotUtf8
    );
    let large = SignalPreKeyBundle {
        identity_key: vec![0; MAX_BUNDLE_FIELD_LEN + 1],
        ..bundle()
    };
    assert_eq!(large.encode().unwrap_err(), SignalError::FieldTooLarge);
}

#[test]
fn recovery_records_round_trip() {
    let record = IdentityRecoveryRecord {
        old_identity: vec![5, 1, 2],
        new_bundle: bundle(),
        effective_at: 1_700_000_000,
        confirmation: true,
        signature: vec![3; 64],
    };
    let frame = record.encode().unwrap();
    assert_eq!(IdentityRecoveryRecord::decode(&frame).unwrap(), record);
    assert!(frame.starts_with(&record.payload().unwrap()));
    assert_eq!(record.old_fingerprint(), "050102");
    assert_eq!(record.new_fingerprint(), "05ab01");

    let mut trailing = frame.clone();
    trailing.push(0);
    assert_eq!(
        IdentityRecoveryRecord::decode(&trailing).unwrap_err(),
        SignalError::TrailingRecoveryBytes
    );
    let flag = record.payload().unwrap().len() - 1;
    let mut confirmation = frame;
    confirmation[flag] = 2;
    assert_eq!(
        IdentityRecoveryRecord::decode(&confirmation).unwrap_err(),
        SignalError::InvalidRecoveryConfirmation
    );
}

#[test]
fn the_libsignal_revision_is_pinned() {
    assert_eq!(
        upstream_revision(),
        "b5121d07c72f9e631f178d907ca892587f64f9e2"
    );
}
