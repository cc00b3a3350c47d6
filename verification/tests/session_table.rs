use mqtt::message::{
    Connack, Connect, Disconnect, Pingreq, Pingresp, Puback, Publish, Suback, Subscribe, Unsuback,
    Unsubscribe, WrappedMessage,
};
use mqtt::qos::QualityOfService;
use mqtt::session::{ProtocolError, Session, Sessions};
use mqtt::will::Will;

fn connect_message() -> WrappedMessage {
    WrappedMessage::WConnect(Connect {
        client_id: b"cli".to_vec(),
        username: Vec::new(),
        password: Vec::new(),
        will: None,
        clean_session: true,
        keep_alive: 60,
    })
}

fn connect_with_will() -> WrappedMessage {
    WrappedMessage::WConnect(Connect {
        client_id: b"cli".to_vec(),
        username: Vec::new(),
        password: Vec::new(),
        will: Some(Will {
            retain: false,
            qos: QualityOfService::AtLeastOnce,
            topic: b"lost".to_vec(),
            message: b"bye".to_vec(),
        }),
        clean_session: true,
        keep_alive: 60,
    })
}

#[test]
fn second_connect_fails_and_removes_the_session() {
    let mut table = Sessions::new();
    let a: u64 = 7;
    assert_eq!(table.handle_message(a, &connect_message()), Ok(()));
    assert!(table.is_connected(a));
    assert_eq!(
        table.handle_message(a, &connect_message()),
        Err(ProtocolError::AlreadyConnected)
    );
    // the stale entry is removed, not silently replaced
    assert!(!table.is_connected(a));
    // so a fresh Connect succeeds again
    assert_eq!(table.handle_message(a, &connect_message()), Ok(()));
    assert!(table.is_connected(a));
}

#[test]
fn subscribe_then_unsubscribe_leaves_the_level_empty() {
    let mut table = Sessions::new();
    let a: u64 = 1;
    table.handle_message(a, &connect_message()).unwrap();
    let sub = WrappedMessage::WSubscribe(Subscribe {
        packet_id: 1,
        topic_filters: vec![(b"t/+".to_vec(), QualityOfService::AtMostOnce)],
    });
    table.handle_message(a, &sub).unwrap();
    assert!(table.has_filter(a, QualityOfService::AtMostOnce, &b"t/+".to_vec()));
    let unsub = WrappedMessage::WUnsubscribe(Unsubscribe {
        packet_id: 2,
        topic_filters: vec![b"t/+".to_vec()],
    });
    table.handle_message(a, &unsub).unwrap();
    assert!(table.empty_at(a, QualityOfService::AtMostOnce));
}

#[test]
fn disconnect_removes_the_session_for_a_new_connect() {
    let mut table = Sessions::new();
    let a: u64 = 2;
    table.handle_message(a, &connect_message()).unwrap();
    assert_eq!(
        table.handle_message(a, &WrappedMessage::WDisconnect(Disconnect {})),
        Ok(())
    );
    assert!(!table.is_connected(a));
    assert_eq!(table.handle_message(a, &connect_message()), Ok(()));
}

#[test]
fn wrong_direction_messages_are_rejected_in_any_state() {
    let server_to_client = || {
        vec![
            WrappedMessage::WConnack(Connack {
                session_present: false,
                return_code: mqtt::connack::ConnackReturnCode::Accepted,
            }),
            WrappedMessage::WSuback(Suback {
                packet_id: 1,
                return_codes: vec![Some(QualityOfService::AtMostOnce)],
            }),
            WrappedMessage::WUnsuback(Unsuback { packet_id: 1 }),
            WrappedMessage::WPingresp(Pingresp {}),
        ]
    };
    let mut table = Sessions::new();
    let a: u64 = 3;
    for msg in server_to_client() {
        assert_eq!(
            table.handle_message(a, &msg),
            Err(ProtocolError::WrongDirection)
        );
    }
    // the same after a session exists
    table.handle_message(a, &connect_message()).unwrap();
    for msg in server_to_client() {
        assert_eq!(
            table.handle_message(a, &msg),
            Err(ProtocolError::WrongDirection)
        );
    }
    assert!(table.is_connected(a));
}

#[test]
fn resubscribing_at_another_level_moves_the_filter() {
    let mut table = Sessions::new();
    let a: u64 = 4;
    table.handle_message(a, &connect_message()).unwrap();
    let sub_low = WrappedMessage::WSubscribe(Subscribe {
        packet_id: 1,
        topic_filters: vec![(b"t".to_vec(), QualityOfService::AtMostOnce)],
    });
    table.handle_message(a, &sub_low).unwrap();
    let sub_high = WrappedMessage::WSubscribe(Subscribe {
        packet_id: 2,
        topic_filters: vec![(b"t".to_vec(), QualityOfService::ExactlyOnce)],
    });
    table.handle_message(a, &sub_high).unwrap();
    assert!(!table.has_filter(a, QualityOfService::AtMostOnce, &b"t".to_vec()));
    assert!(table.has_filter(a, QualityOfService::ExactlyOnce, &b"t".to_vec()));
}

#[test]
fn acknowledged_path_messages_keep_the_table() {
    let mut table = Sessions::new();
    let a: u64 = 5;
    table.handle_message(a, &connect_message()).unwrap();
    let messages = [
        WrappedMessage::WPublish(Publish {
            dup: false,
            qos: QualityOfService::AtMostOnce,
            retain: false,
            topic: b"t".to_vec(),
            packet_id: None,
            payload: b"m".to_vec(),
        }),
        WrappedMessage::WPuback(Puback { packet_id: 1 }),
        WrappedMessage::WPingreq(Pingreq {}),
    ];
    for msg in messages {
        assert_eq!(table.handle_message(a, &msg), Ok(()));
    }
    assert!(table.is_connected(a));
}

#[test]
fn abrupt_close_hands_back_the_will_once() {
    let mut table = Sessions::new();
    let a: u64 = 6;
    table.handle_message(a, &connect_with_will()).unwrap();
    let will = table.on_connection_closed(a);
    let will = will.expect("an abrupt close surfaces the pending will");
    assert_eq!(will.topic, b"lost".to_vec());
    assert_eq!(will.message, b"bye".to_vec());
    assert_eq!(will.qos, QualityOfService::AtLeastOnce);
    assert!(!table.is_connected(a));
    // a duplicate close is idempotent
    assert_eq!(table.on_connection_closed(a), None);
}

#[test]
fn graceful_disconnect_cancels_the_will() {
    let mut table = Sessions::new();
    let a: u64 = 8;
    table.handle_message(a, &connect_with_will()).unwrap();
    table
        .handle_message(a, &WrappedMessage::WDisconnect(Disconnect {}))
        .unwrap();
    assert_eq!(table.on_connection_closed(a), None);
}

#[test]
fn subscribe_before_connect_changes_nothing() {
    let mut table = Sessions::new();
    let a: u64 = 9;
    let sub = WrappedMessage::WSubscribe(Subscribe {
        packet_id: 1,
        topic_filters: vec![(b"t".to_vec(), QualityOfService::AtMostOnce)],
    });
    assert_eq!(table.handle_message(a, &sub), Ok(()));
    assert!(!table.is_connected(a));
    assert!(!table.has_filter(a, QualityOfService::AtMostOnce, &b"t".to_vec()));
}

#[test]
fn sessions_are_independent_per_address() {
    let mut table = Sessions::new();
    table.handle_message(1, &connect_message()).unwrap();
    table.handle_message(2, &connect_message()).unwrap();
    let sub = WrappedMessage::WSubscribe(Subscribe {
        packet_id: 1,
        topic_filters: vec![(b"t".to_vec(), QualityOfService::AtLeastOnce)],
    });
    table.handle_message(1, &sub).unwrap();
    assert!(table.has_filter(1, QualityOfService::AtLeastOnce, &b"t".to_vec()));
    assert!(!table.has_filter(2, QualityOfService::AtLeastOnce, &b"t".to_vec()));
    table
        .handle_message(1, &WrappedMessage::WDisconnect(Disconnect {}))
        .unwrap();
    assert!(!table.is_connected(1));
    assert!(table.is_connected(2));
}

#[test]
fn session_subscribe_reports_newness_and_migrates() {
    let mut s = Session::new(None);
    assert!(s.subscribe(QualityOfService::AtMostOnce, b"t".to_vec()));
    assert!(!s.subscribe(QualityOfService::AtMostOnce, b"t".to_vec()));
    assert!(s.has_filter(QualityOfService::AtMostOnce, &b"t".to_vec()));
    // moving to another level empties the old one
    assert!(s.subscribe(QualityOfService::ExactlyOnce, b"t".to_vec()));
    assert!(!s.has_filter(QualityOfService::AtMostOnce, &b"t".to_vec()));
    assert!(s.has_filter(QualityOfService::ExactlyOnce, &b"t".to_vec()));
    s.unsubscribe(&b"t".to_vec());
    assert!(s.empty_at(QualityOfService::ExactlyOnce));
    // unsubscribing an absent filter is not an error
    s.unsubscribe(&b"t".to_vec());
    assert!(s.empty_at(QualityOfService::AtMostOnce));
}
