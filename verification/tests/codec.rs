use mqtt::connack::ConnackReturnCode;
use mqtt::control::ControlPacketType;
use mqtt::fixed_header::FixedHeader;
use mqtt::message::{
    Connack, Connect, Disconnect, Message, Pingreq, Pingresp, Puback, Pubcomp, Publish, Pubrec,
    Pubrel, Suback, Subscribe, Unsuback, Unsubscribe, WrappedMessage,
};
use mqtt::payload::SubackReturn;
use mqtt::qos::QualityOfService;
use mqtt::remaining_length::RemainingLength;
use mqtt::serde::{DecodeError, EncodeError, Serde};

#[test]
fn remaining_length_round_trip_table() {
    let table: [(u32, usize); 9] = [
        (0, 1),
        (1, 1),
        (127, 1),
        (128, 2),
        (16383, 2),
        (16384, 3),
        (2097151, 3),
        (2097152, 4),
        (268435455, 4),
    ];
    for (value, width) in table {
        let rl = RemainingLength::try_new(value).unwrap();
        assert_eq!(rl.size(), width);
        let bytes = rl.ser().unwrap();
        assert_eq!(bytes.len(), width, "minimal encoding for {}", value);
        let (back, used) = RemainingLength::de(&bytes).unwrap();
        assert_eq!(back.value(), value);
        assert_eq!(used, width);
    }
}

#[test]
fn remaining_length_encode_out_of_range() {
    assert_eq!(
        RemainingLength::try_new(268435456),
        Err(EncodeError::OutOfRange)
    );
}

#[test]
fn remaining_length_decode_five_continuations_is_malformed() {
    let bytes = [0x80u8, 0x80, 0x80, 0x80, 0x80];
    assert_eq!(
        RemainingLength::de(&bytes),
        Err(DecodeError::Malformed)
    );
}

#[test]
fn remaining_length_decode_short_input() {
    assert_eq!(
        RemainingLength::de(&[]),
        Err(DecodeError::UnexpectedEndOfInput)
    );
    assert_eq!(
        RemainingLength::de(&[0x80, 0x80]),
        Err(DecodeError::UnexpectedEndOfInput)
    );
}

#[test]
fn remaining_length_accepts_padded_encodings() {
    // decode reads until the continuation bit clears, so a padded
    // two-byte zero is accepted even though encode never emits it
    let (rl, used) = RemainingLength::de(&[0x80, 0x00]).unwrap();
    assert_eq!(rl.value(), 0);
    assert_eq!(used, 2);
}

#[test]
fn remaining_length_from_bytes_reads_value() {
    let rl = RemainingLength::from_bytes(&[0x93, 0x02, 0xFF]).unwrap();
    assert_eq!(rl.value(), 0x13 + 0x02 * 128);
}

#[test]
fn subscribe_encoding_carries_mandated_flags() {
    let m = WrappedMessage::WSubscribe(Subscribe {
        packet_id: 10,
        topic_filters: vec![(b"a/b".to_vec(), QualityOfService::AtLeastOnce)],
    });
    let bytes = m.ser().unwrap();
    assert_eq!(bytes[0], 0x82);
    assert_eq!(
        bytes,
        vec![0x82, 0x08, 0x00, 0x0A, 0x00, 0x03, b'a', b'/', b'b', 0x01]
    );
}

#[test]
fn unsubscribe_and_pubrel_encodings_carry_mandated_flags() {
    let u = WrappedMessage::WUnsubscribe(Unsubscribe {
        packet_id: 3,
        topic_filters: vec![b"t".to_vec()],
    });
    assert_eq!(u.ser().unwrap()[0], 0xA2);
    let p = WrappedMessage::WPubrel(Pubrel { packet_id: 3 });
    assert_eq!(p.ser().unwrap(), vec![0x62, 0x02, 0x00, 0x03]);
}

#[test]
fn subscribe_header_with_other_flags_is_invalid() {
    for nibble in 0u8..16 {
        if nibble == 2 {
            continue;
        }
        let first = 0x80 | nibble;
        assert!(
            matches!(
                FixedHeader::de(&[first, 0x00]),
                Err(DecodeError::InvalidFlags)
            ),
            "nibble {}",
            nibble
        );
        assert!(matches!(
            WrappedMessage::de(&[first, 0x00]),
            Err(DecodeError::InvalidFlags)
        ));
    }
}

#[test]
fn publish_flags_map_dup_qos_retain() {
    let m = Publish {
        dup: true,
        qos: QualityOfService::ExactlyOnce,
        retain: true,
        topic: b"t".to_vec(),
        packet_id: Some(7),
        payload: b"x".to_vec(),
    };
    assert_eq!(m.flags(), [true, true, false, true]);
    let wrapped = WrappedMessage::WPublish(m);
    let bytes = wrapped.ser().unwrap();
    assert_eq!(bytes[0], 0x3D);
    let (back, used) = WrappedMessage::de(&bytes).unwrap();
    assert_eq!(used, bytes.len());
    assert_eq!(back, wrapped);
}

#[test]
fn publish_without_packet_id_round_trips() {
    let wrapped = WrappedMessage::WPublish(Publish {
        dup: false,
        qos: QualityOfService::AtMostOnce,
        retain: true,
        topic: b"t".to_vec(),
        packet_id: None,
        payload: b"hi".to_vec(),
    });
    let bytes = wrapped.ser().unwrap();
    assert_eq!(bytes, vec![0x31, 0x05, 0x00, 0x01, b't', b'h', b'i']);
    let (back, used) = WrappedMessage::de(&bytes).unwrap();
    assert_eq!(used, bytes.len());
    assert_eq!(back, wrapped);
}

#[test]
fn connect_round_trip_and_flag_byte() {
    let wrapped = WrappedMessage::WConnect(Connect {
        client_id: b"abc".to_vec(),
        username: Vec::new(),
        password: Vec::new(),
        will: None,
        clean_session: true,
        keep_alive: 60,
    });
    let bytes = wrapped.ser().unwrap();
    assert_eq!(
        bytes,
        vec![
            0x10, 15, 0, 4, b'M', b'Q', b'T', b'T', 4, 0b0000_0010, 0, 60, 0, 3, b'a', b'b', b'c'
        ]
    );
    // the connect-flags byte: clean session set, username, password and
    // will bits clear
    let flags = bytes[2 + 7];
    assert_eq!(flags & 0b0000_0010, 0b0000_0010);
    assert_eq!(flags & 0b1000_0000, 0);
    assert_eq!(flags & 0b0100_0000, 0);
    assert_eq!(flags & 0b0000_0100, 0);
    let (back, used) = WrappedMessage::de(&bytes).unwrap();
    assert_eq!(used, bytes.len());
    assert_eq!(back, wrapped);
}

#[test]
fn connect_with_will_and_credentials_round_trips() {
    let wrapped = WrappedMessage::WConnect(Connect {
        client_id: b"cli".to_vec(),
        username: b"user".to_vec(),
        password: b"pass".to_vec(),
        will: Some(mqtt::will::Will {
            retain: true,
            qos: QualityOfService::AtLeastOnce,
            topic: b"wt".to_vec(),
            message: b"gone".to_vec(),
        }),
        clean_session: false,
        keep_alive: 30,
    });
    let bytes = wrapped.ser().unwrap();
    let (back, used) = WrappedMessage::de(&bytes).unwrap();
    assert_eq!(used, bytes.len());
    assert_eq!(back, wrapped);
}

#[test]
fn connack_round_trips_every_return_code() {
    let codes = [
        ConnackReturnCode::Accepted,
        ConnackReturnCode::UnacceptableProtocolVersion,
        ConnackReturnCode::IdentifierRejected,
        ConnackReturnCode::ServerUnavailable,
        ConnackReturnCode::BadUsernameOrPassword,
        ConnackReturnCode::NotAuthorized,
    ];
    for (i, code) in codes.into_iter().enumerate() {
        assert_eq!(code.to_byte(), i as u8);
        assert_eq!(ConnackReturnCode::from_byte(i as u8), Ok(code));
        let wrapped = WrappedMessage::WConnack(Connack {
            session_present: i % 2 == 0,
            return_code: code,
        });
        let bytes = wrapped.ser().unwrap();
        let (back, used) = WrappedMessage::de(&bytes).unwrap();
        assert_eq!(used, bytes.len());
        assert_eq!(back, wrapped);
    }
    assert_eq!(
        ConnackReturnCode::from_byte(6),
        Err(DecodeError::MalformedPayload)
    );
}

#[test]
fn acknowledgement_packets_round_trip() {
    let messages = [
        WrappedMessage::WPuback(Puback { packet_id: 0x1234 }),
        WrappedMessage::WPubrec(Pubrec { packet_id: 1 }),
        WrappedMessage::WPubcomp(Pubcomp { packet_id: 65535 }),
        WrappedMessage::WUnsuback(Unsuback { packet_id: 0 }),
    ];
    for wrapped in messages {
        let bytes = wrapped.ser().unwrap();
        assert_eq!(bytes.len(), 4);
        let (back, used) = WrappedMessage::de(&bytes).unwrap();
        assert_eq!(used, bytes.len());
        assert_eq!(back, wrapped);
    }
}

#[test]
fn empty_body_packets_round_trip() {
    let messages = [
        WrappedMessage::WPingreq(Pingreq {}),
        WrappedMessage::WPingresp(Pingresp {}),
        WrappedMessage::WDisconnect(Disconnect {}),
    ];
    for wrapped in messages {
        let bytes = wrapped.ser().unwrap();
        assert_eq!(bytes.len(), 2);
        assert_eq!(bytes[1], 0);
        let (back, used) = WrappedMessage::de(&bytes).unwrap();
        assert_eq!(used, bytes.len());
        assert_eq!(back, wrapped);
    }
}

#[test]
fn suback_round_trips_with_failure_entry() {
    let wrapped = WrappedMessage::WSuback(Suback {
        packet_id: 9,
        return_codes: vec![
            Some(QualityOfService::AtMostOnce),
            None,
            Some(QualityOfService::ExactlyOnce),
        ],
    });
    let bytes = wrapped.ser().unwrap();
    assert_eq!(bytes, vec![0x90, 0x05, 0x00, 0x09, 0x00, 0x80, 0x02]);
    let (back, used) = WrappedMessage::de(&bytes).unwrap();
    assert_eq!(used, bytes.len());
    assert_eq!(back, wrapped);
}

#[test]
fn subscribe_round_trips_several_filters() {
    let wrapped = WrappedMessage::WSubscribe(Subscribe {
        packet_id: 77,
        topic_filters: vec![
            (b"a".to_vec(), QualityOfService::AtMostOnce),
            (b"b/c".to_vec(), QualityOfService::ExactlyOnce),
        ],
    });
    let bytes = wrapped.ser().unwrap();
    let (back, used) = WrappedMessage::de(&bytes).unwrap();
    assert_eq!(used, bytes.len());
    assert_eq!(back, wrapped);
}

#[test]
fn unsubscribe_round_trips() {
    let wrapped = WrappedMessage::WUnsubscribe(Unsubscribe {
        packet_id: 4,
        topic_filters: vec![b"x".to_vec(), b"y/z".to_vec()],
    });
    let bytes = wrapped.ser().unwrap();
    let (back, used) = WrappedMessage::de(&bytes).unwrap();
    assert_eq!(used, bytes.len());
    assert_eq!(back, wrapped);
}

#[test]
fn subscribe_without_filters_is_malformed() {
    // packet identifier only, no filter entry
    let bytes = [0x82, 0x02, 0x00, 0x01];
    assert!(matches!(
        WrappedMessage::de(&bytes),
        Err(DecodeError::MalformedPayload)
    ));
}

#[test]
fn subscribe_with_bad_requested_qos_is_malformed() {
    let bytes = [0x82, 0x06, 0x00, 0x01, 0x00, 0x01, b't', 0x03];
    assert!(matches!(
        WrappedMessage::de(&bytes),
        Err(DecodeError::MalformedPayload)
    ));
}

#[test]
fn suback_with_bad_code_is_malformed() {
    let bytes = [0x90, 0x03, 0x00, 0x09, 0x03];
    assert!(matches!(
        WrappedMessage::de(&bytes),
        Err(DecodeError::MalformedPayload)
    ));
}

#[test]
fn truncated_packet_is_rejected() {
    // a Publish announcing five body bytes with only one available
    let bytes = [0x30, 0x05, 0x00];
    assert!(matches!(
        WrappedMessage::de(&bytes),
        Err(DecodeError::TruncatedPacket)
    ));
}

#[test]
fn reserved_type_codes_are_rejected() {
    assert!(matches!(
        WrappedMessage::de(&[0x05, 0x00]),
        Err(DecodeError::InvalidControlPacketType)
    ));
    assert!(matches!(
        WrappedMessage::de(&[0xF0, 0x00]),
        Err(DecodeError::InvalidControlPacketType)
    ));
}

#[test]
fn publish_with_qos_three_is_invalid() {
    // flag nibble 0b0110: both quality-of-service bits set
    let bytes = [0x36, 0x03, 0x00, 0x01, b't'];
    assert!(matches!(
        WrappedMessage::de(&bytes),
        Err(DecodeError::InvalidFlags)
    ));
}

#[test]
fn connect_with_bad_magic_is_malformed() {
    let bytes = [
        0x10, 15, 0, 4, b'M', b'Q', b'T', b'X', 4, 0x02, 0, 60, 0, 3, b'a', b'b', b'c',
    ];
    assert!(matches!(
        WrappedMessage::de(&bytes),
        Err(DecodeError::MalformedPayload)
    ));
}

#[test]
fn oversized_topic_cannot_be_encoded() {
    let wrapped = WrappedMessage::WPublish(Publish {
        dup: false,
        qos: QualityOfService::AtMostOnce,
        retain: false,
        topic: vec![b'a'; 65536],
        packet_id: None,
        payload: Vec::new(),
    });
    assert_eq!(wrapped.ser(), Err(EncodeError::OutOfRange));
}

#[test]
fn remaining_length_method_counts_body_bytes() {
    let wrapped = WrappedMessage::WPuback(Puback { packet_id: 5 });
    assert_eq!(wrapped.remaining_length().unwrap().value(), 2);
    let connect = WrappedMessage::WConnect(Connect {
        client_id: b"abc".to_vec(),
        username: Vec::new(),
        password: Vec::new(),
        will: None,
        clean_session: true,
        keep_alive: 60,
    });
    assert_eq!(connect.remaining_length().unwrap().value(), 15);
}

#[test]
fn control_packet_type_codes_round_trip() {
    for code in 0u8..16 {
        let t = ControlPacketType::from_byte(code).unwrap();
        assert_eq!(t.to_byte(), code);
    }
    assert_eq!(
        ControlPacketType::from_byte(16),
        Err(DecodeError::InvalidControlPacketType)
    );
    assert_eq!(
        ControlPacketType::from_bytes(&[]),
        Err(DecodeError::UnexpectedEndOfInput)
    );
    assert_eq!(
        ControlPacketType::from_bytes(&[8]),
        Ok(ControlPacketType::Subscribe)
    );
}

#[test]
fn fixed_header_first_byte_round_trips() {
    let h = FixedHeader {
        packet_type: ControlPacketType::Pubrel,
        flags: [false, false, true, false],
        remaining_length: RemainingLength::try_new(2).unwrap(),
    };
    assert_eq!(h.to_first_byte(), 0x62);
    let (t, flags) = FixedHeader::from_first_byte(0x62).unwrap();
    assert_eq!(t, ControlPacketType::Pubrel);
    assert_eq!(flags, [false, false, true, false]);
    assert!(matches!(
        FixedHeader::from_first_byte(0x0F),
        Err(DecodeError::InvalidControlPacketType)
    ));
}

#[test]
fn qos_bits_and_bytes() {
    assert_eq!(QualityOfService::AtMostOnce.bits(), (false, false));
    assert_eq!(QualityOfService::AtLeastOnce.bits(), (false, true));
    assert_eq!(QualityOfService::ExactlyOnce.bits(), (true, false));
    assert_eq!(QualityOfService::ExactlyOnce.to_byte(), 2);
    assert_eq!(
        QualityOfService::de(&[1]),
        Ok((QualityOfService::AtLeastOnce, 1))
    );
    assert_eq!(
        QualityOfService::de(&[3]),
        Err(DecodeError::MalformedPayload)
    );
}

#[test]
fn granted_level_is_numeric_minimum() {
    assert_eq!(
        QualityOfService::granted(QualityOfService::ExactlyOnce, QualityOfService::AtLeastOnce),
        QualityOfService::AtLeastOnce
    );
    assert_eq!(
        QualityOfService::granted(QualityOfService::AtMostOnce, QualityOfService::ExactlyOnce),
        QualityOfService::AtMostOnce
    );
    assert_eq!(
        QualityOfService::granted(QualityOfService::AtLeastOnce, QualityOfService::AtLeastOnce),
        QualityOfService::AtLeastOnce
    );
}

#[test]
fn suback_return_conversions() {
    assert_eq!(SubackReturn::from_qos(None), SubackReturn::Failure);
    assert_eq!(
        SubackReturn::from_qos(Some(QualityOfService::AtLeastOnce)),
        SubackReturn::AtLeastOnce
    );
    assert_eq!(SubackReturn::Failure.to_qos(), None);
    assert_eq!(
        SubackReturn::ExactlyOnce.to_qos(),
        Some(QualityOfService::ExactlyOnce)
    );
    assert_eq!(SubackReturn::Failure.to_byte(), 128);
    assert_eq!(SubackReturn::from_byte(128), Ok(SubackReturn::Failure));
    assert_eq!(SubackReturn::from_byte(1), Ok(SubackReturn::AtLeastOnce));
    assert_eq!(
        SubackReturn::from_byte(3),
        Err(DecodeError::MalformedPayload)
    );
}

#[test]
fn decode_ignores_trailing_bytes() {
    let wrapped = WrappedMessage::WPuback(Puback { packet_id: 5 });
    let mut bytes = wrapped.ser().unwrap();
    bytes.extend_from_slice(&[0xDE, 0xAD]);
    let (back, used) = WrappedMessage::de(&bytes).unwrap();
    assert_eq!(used, 4);
    assert_eq!(back, wrapped);
}

#[test]
fn message_trait_reports_packet_types() {
    assert_eq!(
        Pingreq {}.packet_type(),
        ControlPacketType::Pingreq
    );
    assert_eq!(
        Puback { packet_id: 1 }.packet_type(),
        ControlPacketType::Puback
    );
    assert_eq!(
        Pubrel { packet_id: 1 }.flags(),
        [false, false, true, false]
    );
    assert!(Pingresp {}.variable_header().is_none());
    assert!(Disconnect {}.payload().is_none());
}
