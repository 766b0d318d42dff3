use safechat::protocol::{
    decode_messages, decode_submit, encode_messages, encode_submit, Field, Message, Part,
    ProtocolError, Submit, MAX_ADDRESS_BYTES, MAX_BODY, MAX_CIPHERTEXT_BYTES, MAX_MESSAGES,
    MAX_RECIPIENT_BYTES,
};

fn submit(expires_at: Option<u64>, ciphertext: Vec<u8>) -> Submit {
    Submit {
        recipient: "r".to_owned(),
        message_id: "m".to_owned(),
        expires_at,
        ciphertext,
    }
}

fn message(sender_address: Option<String>, ciphertext: Vec<u8>) -> Message {
    Message {
        server_id: -2,
        sender: "s".to_owned(),
        sender_address,
        message_id: "m".to_owned(),
        accepted_at: 258,
        expires_at: Some(3),
        ciphertext,
    }
}

#[test]
fn malformed_lengths_are_rejected() {
    let mut x = encode_submit(&Submit {
        recipient: "r".into(),
        message_id: "m".into(),
        expires_at: None,
        ciphertext: vec![1],
    })
    .unwrap();
    let n = 5;
    x[n..n + 4].copy_from_slice(&99u32.to_be_bytes());
    assert!(decode_submit(&x).is_err());
}

#[test]
fn oversized_fields_are_rejected() {
    assert!(encode_submit(&Submit {
        recipient: "r".repeat(MAX_RECIPIENT_BYTES + 1),
        message_id: "m".into(),
        expires_at: None,
        ciphertext: vec![]
    })
    .is_err());
    assert!(encode_messages(&[Message {
        server_id: 1,
        sender: "s".repeat(MAX_ADDRESS_BYTES + 1),
        sender_address: None,
        message_id: "m".into(),
        accepted_at: 1,
        expires_at: None,
        ciphertext: vec![]
    }])
    .is_err());
}

#[test]
fn unknown_flags_are_rejected() {
    let mut x = encode_submit(&Submit {
        recipient: "r".into(),
        message_id: "m".into(),
        expires_at: None,
        ciphertext: vec![],
    })
    .unwrap();
    x[5 + 4 + 1 + 4 + 1] = 2;
    assert!(decode_submit(&x).is_err());
}

#[test]
fn maximum_ciphertext_round_trips() {
    let value = Submit {
        recipient: "r".into(),
        message_id: "m".into(),
        expires_at: Some(1),
        ciphertext: vec![7; MAX_CIPHERTEXT_BYTES - 64],
    };
    assert_eq!(
        decode_submit(&encode_submit(&value).unwrap()).unwrap(),
        value
    );
}

#[test]
fn json_and_binary_logical_fields_are_equivalent() {
    let json_fields = Submit {
        recipient: "recipient".into(),
        message_id: "message".into(),
        expires_at: Some(7),
        ciphertext: vec![0, 1, 255],
    };
    let binary_fields = decode_submit(&encode_submit(&json_fields).unwrap()).unwrap();
    assert_eq!(json_fields, binary_fields);
}

#[test]
fn public_submit_codec_round_trips() {
    let value = Submit {
        recipient: "recipient".to_owned(),
        message_id: "message-id".to_owned(),
        expires_at: None,
        ciphertext: vec![1, 2, 3, 4],
    };
    assert_eq!(
        decode_submit(&encode_submit(&value).expect("encode")).expect("decode"),
        value
    );
}

#[test]
fn public_message_codec_rejects_trailing_bytes() {
    let encoded = encode_messages(&[Message {
        server_id: 1,
        sender: "sender".to_owned(),
        sender_address: None,
        message_id: "message-id".to_owned(),
        ciphertext: vec![9],
        accepted_at: 10,
        expires_at: None,
    }])
    .expect("encode");
    let mut malformed = encoded;
    malformed.push(0);
    assert!(decode_messages(&malformed).is_err());
}

#[test]
fn submit_frame_has_the_documented_layout() {
    let frame = encode_submit(&submit(Some(258), vec![9, 8])).unwrap();
    assert_eq!(
        frame,
        vec![
            0, 1, 0, 1, 1, // version, schema, kind
            0, 0, 0, 1, b'r', // recipient
            0, 0, 0, 1, b'm', // message ID
            1, 0, 0, 0, 0, 0, 0, 1, 2, // expiration
            0, 0, 0, 2, 9, 8, // ciphertext
        ]
    );
}

#[test]
fn messages_frame_has_the_documented_layout() {
    let frame = encode_messages(&[message(Some("a".to_owned()), vec![5])]).unwrap();
    assert_eq!(
        frame,
        vec![
            0, 1, 0, 1, 2, // version, schema, kind
            0, 0, 0, 1, // count
            255, 255, 255, 255, 255, 255, 255, 254, // server ID
            0, 0, 0, 1, b's', // sender
            1, 0, 0, 0, 1, b'a', // sender address
            0, 0, 0, 1, b'm', // message ID
            0, 0, 0, 0, 0, 0, 1, 2, // acceptance
            1, 0, 0, 0, 0, 0, 0, 0, 3, // expiration
            0, 0, 0, 1, 5, // ciphertext
        ]
    );
    let read = decode_messages(&frame).unwrap();
    assert_eq!(read, vec![message(Some("a".to_owned()), vec![5])]);
}

#[test]
fn messages_round_trip_in_their_order() {
    let messages = vec![
        message(None, vec![]),
        message(Some("device.1".to_owned()), vec![0, 255]),
        message(None, vec![7; 300]),
    ];
    assert_eq!(
        decode_messages(&encode_messages(&messages).unwrap()).unwrap(),
        messages
    );
    assert_eq!(decode_messages(&encode_messages(&[]).unwrap()).unwrap(), vec![]);
}

#[test]
fn headers_are_checked_before_the_payload() {
    assert_eq!(decode_submit(&[0, 1, 0, 1]), Err(ProtocolError::TruncatedHeader));
    assert_eq!(
        decode_submit(&[0, 2, 0, 1, 1]),
        Err(ProtocolError::UnsupportedVersion)
    );
    assert_eq!(
        decode_submit(&[0, 1, 0, 2, 1]),
        Err(ProtocolError::UnsupportedVersion)
    );
    assert_eq!(
        decode_submit(&[0, 1, 0, 1, 2]),
        Err(ProtocolError::UnexpectedKind)
    );
    assert_eq!(
        decode_messages(&[0, 1, 0, 1, 1]),
        Err(ProtocolError::UnexpectedKind)
    );
    assert_eq!(
        decode_submit(&vec![0; MAX_BODY + 1]),
        Err(ProtocolError::BodyTooLarge)
    );
}

#[test]
fn each_fault_in_a_submit_is_named() {
    let frame = encode_submit(&submit(None, vec![1])).unwrap();
    assert_eq!(
        decode_submit(&frame[..7]),
        Err(ProtocolError::Truncated(Part::U32))
    );
    assert_eq!(
        decode_submit(&frame[..9]),
        Err(ProtocolError::Truncated(Part::Body(Field::Recipient)))
    );
    assert_eq!(
        decode_submit(&frame[..15]),
        Err(ProtocolError::Truncated(Part::Byte))
    );
    let mut not_utf8 = frame.clone();
    not_utf8[9] = 0xff;
    assert_eq!(
        decode_submit(&not_utf8),
        Err(ProtocolError::NotUtf8(Field::Recipient))
    );
    let mut flag = frame.clone();
    flag[15] = 2;
    assert_eq!(
        decode_submit(&flag),
        Err(ProtocolError::UnknownExpirationFlag)
    );
    let mut long = frame.clone();
    long[5..9].copy_from_slice(&257u32.to_be_bytes());
    assert_eq!(
        decode_submit(&long),
        Err(ProtocolError::FieldTooLong {
            field: Field::Recipient,
            limit: 256
        })
    );
    let mut trailing = frame.clone();
    trailing.push(0);
    assert_eq!(decode_submit(&trailing), Err(ProtocolError::TrailingBytes));
}

#[test]
fn each_fault_in_a_message_list_is_named() {
    let frame = encode_messages(&[message(None, vec![])]).unwrap();
    let mut address = frame.clone();
    address[22] = 3;
    assert_eq!(
        decode_messages(&address),
        Err(ProtocolError::UnknownSenderAddressFlag)
    );
    assert_eq!(
        decode_messages(&frame[..12]),
        Err(ProtocolError::Truncated(Part::I64))
    );
    assert_eq!(
        decode_messages(&frame[..30]),
        Err(ProtocolError::Truncated(Part::U64))
    );
    let mut count = frame.clone();
    count[5..9].copy_from_slice(&101u32.to_be_bytes());
    assert_eq!(decode_messages(&count), Err(ProtocolError::TooManyMessages));
    let many: Vec<Message> = (0..MAX_MESSAGES + 1).map(|_| message(None, vec![])).collect();
    assert_eq!(encode_messages(&many), Err(ProtocolError::TooManyMessages));
}

#[test]
fn a_frame_that_cannot_be_read_is_not_written() {
    let value = submit(None, vec![0; MAX_CIPHERTEXT_BYTES]);
    assert_eq!(encode_submit(&value), Err(ProtocolError::BodyTooLarge));
    let value = submit(None, vec![0; MAX_CIPHERTEXT_BYTES + 1]);
    assert_eq!(
        encode_submit(&value),
        Err(ProtocolError::FieldTooLong {
            field: Field::Ciphertext,
            limit: MAX_CIPHERTEXT_BYTES
        })
    );
}

#[test]
fn protocol_errors_read_as_sentences() {
    assert_eq!(
        ProtocolError::FieldTooLong {
            field: Field::MessageId,
            limit: 256
        }
        .message(),
        "message ID exceeds maximum length of 256 bytes"
    );
    assert_eq!(
        ProtocolError::Truncated(Part::Body(Field::Ciphertext)).message(),
        "truncated ciphertext"
    );
    assert_eq!(
        ProtocolError::NotUtf8(Field::Sender).message(),
        "sender is not UTF-8"
    );
    assert_eq!(
        ProtocolError::TrailingBytes.message(),
        "trailing bytes in binary relay frame"
    );
}
