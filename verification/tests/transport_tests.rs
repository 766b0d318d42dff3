use safechat::transport::{
    BundleTransport, DeliveryStatus, MessageTransport, RecoveryTransport, TextError,
    TextTransport, TransportError, TransportMessage,
};

struct InMemoryTransport {
    messages: Vec<TransportMessage>,
}

impl MessageTransport for InMemoryTransport {
    fn send(
        &mut self,
        _recipient: &str,
        message_id: &str,
        ciphertext: &[u8],
        _expires_at: Option<u64>,
    ) -> Result<(), TransportError> {
        self.messages.push(TransportMessage {
            transport_id: "memory-1".to_owned(),
            sender: "sender".to_owned(),
            sender_address: None,
            message_id: message_id.to_owned(),
            ciphertext: ciphertext.to_vec(),
            accepted_at: 1,
            expires_at: None,
        });
        Ok(())
    }

    fn receive(&mut self, _cursor: i64) -> Result<Vec<TransportMessage>, TransportError> {
        Ok(self.messages.clone())
    }

    fn acknowledge(&mut self, _message: &TransportMessage) -> Result<(), TransportError> {
        Ok(())
    }

    fn status(&mut self, _message_id: &str) -> Result<DeliveryStatus, TransportError> {
        Ok(DeliveryStatus::Read)
    }
}

#[test]
fn message_transport_boundary_supports_send_receive_ack_and_status() {
    let mut transport = InMemoryTransport {
        messages: Vec::new(),
    };
    transport
        .send("peer", "message-1", b"encrypted", None)
        .unwrap();
    let messages = transport.receive(0).unwrap();
    assert_eq!(messages[0].message_id, "message-1");
    transport.acknowledge(&messages[0]).unwrap();
    assert_eq!(transport.status("message-1").unwrap(), DeliveryStatus::Read);
}

#[test]
fn text_transport_round_trip_supports_paste_mode() {
    let encoded = TextTransport.encode(&[1, 2, 3, 0, 255]);
    assert!(!encoded.contains("safechat"));
    assert_eq!(TextTransport.decode(&encoded).unwrap(), [1, 2, 3, 0, 255]);
}

#[test]
fn transport_bundle_transport_round_trip() {
    let encoded = BundleTransport.encode(b"public bundle bytes");
    assert_eq!(
        BundleTransport.decode(&encoded).unwrap(),
        b"public bundle bytes"
    );
    assert!(BundleTransport.decode("not base64!").is_err());
}

#[test]
fn recovery_transport_round_trip_is_distinct_from_bundles() {
    let encoded = RecoveryTransport.encode(b"signed recovery record");
    assert_eq!(
        RecoveryTransport.decode(&encoded).unwrap(),
        b"signed recovery record"
    );
    assert_eq!(
        BundleTransport.decode(&encoded).unwrap(),
        b"signed recovery record"
    );
}

#[test]
fn public_transport_adapters_round_trip_payloads_independently() {
    let payload = b"already encrypted bytes";
    let text = TextTransport;
    let bundle = BundleTransport;
    let recovery = RecoveryTransport;

    assert_eq!(
        text.decode(&text.encode(payload)).expect("text decode"),
        payload
    );
    assert_eq!(
        bundle
            .decode(&bundle.encode(payload))
            .expect("bundle decode"),
        payload
    );
    assert_eq!(
        recovery
            .decode(&recovery.encode(payload))
            .expect("recovery decode"),
        payload
    );
}

#[test]
fn a_text_line_is_base64_without_padding() {
    assert_eq!(TextTransport.encode(&[0xfb, 0xff]), "-_8\n");
    assert_eq!(TextTransport.decode(" \t-_8\r\n").unwrap(), [0xfb, 0xff]);
    assert_eq!(TextTransport.encode(&[]), "\n");
    assert!(TextTransport.decode("").unwrap().is_empty());
}

#[test]
fn each_channel_names_its_own_fault() {
    assert_eq!(
        TextTransport.decode("-_8=").unwrap_err(),
        TextError::InvalidMessage
    );
    assert_eq!(
        BundleTransport.decode("+/8").unwrap_err(),
        TextError::InvalidBundle
    );
    assert_eq!(
        RecoveryTransport.decode("a").unwrap_err(),
        TextError::InvalidRecovery
    );
    assert_eq!(
        TextError::InvalidMessage.message(),
        "invalid safechat text message encoding"
    );
    assert_eq!(
        TextError::InvalidBundle.message(),
        "invalid safechat text bundle encoding"
    );
    assert_eq!(
        TextError::InvalidRecovery.message(),
        "invalid safechat recovery encoding"
    );
}
