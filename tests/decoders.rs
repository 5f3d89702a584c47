use sake::connect::{ConnectFlags, ConnectPacket, ConnectPayload, ConnectVariableHeader};
use sake::header::{AckType, Qos};
use sake::message::{Request, Serialize};
use sake::subscribe::{SubscribePacket, SubscriptionTopic};
use sake::TransportError;

fn full_connect() -> ConnectPacket {
    ConnectPacket {
        variable_header: ConnectVariableHeader {
            flags: ConnectFlags {
                clean_session: true,
                will: true,
                will_qos: 1,
                will_retain: true,
                password: true,
                username: true,
            },
            keepalive: 30,
        },
        payload: ConnectPayload {
            client_id: Some("client".to_string()),
            will_topic: Some("last/will".to_string()),
            will_message: Some("bye".to_string()),
            username: Some("user".to_string()),
            password: Some("secret".to_string()),
        },
    }
}

#[test]
fn connect_round_trip_minimal() {
    let packet = ConnectPacket::new("test-id".to_string(), true);
    let mut buf = vec![];
    let n = packet.write(&mut buf);
    assert_eq!(n, buf.len());
    assert_eq!(ConnectPacket::from_bytes(&buf), Ok(packet));
}

#[test]
fn connect_round_trip_with_will_and_credentials() {
    let packet = full_connect();
    let mut buf = vec![];
    packet.write(&mut buf);
    // user name, password, will retain, will QoS 1, will, clean session
    assert_eq!(buf[7], 0x80 | 0x40 | 0x20 | 0x08 | 0x04 | 0x02);
    let tail: Vec<u8> = [
        &[0u8, 4][..],
        b"user",
        &[0, 6][..],
        b"secret",
    ]
    .concat();
    assert_eq!(buf[buf.len() - tail.len()..].to_vec(), tail);
    assert_eq!(ConnectPacket::from_bytes(&buf), Ok(full_connect()));
}

#[test]
fn connect_decode_errors() {
    let packet = ConnectPacket::new("id".to_string(), false);
    let mut buf = vec![];
    packet.write(&mut buf);

    let mut wrong_name = buf.clone();
    wrong_name[2] = b'X';
    assert_eq!(
        ConnectPacket::from_bytes(&wrong_name),
        Err(TransportError::MalformedPacket)
    );

    let mut reserved = buf.clone();
    reserved[7] |= 0x01;
    assert_eq!(
        ConnectPacket::from_bytes(&reserved),
        Err(TransportError::MalformedPacket)
    );

    let mut trailing = buf.clone();
    trailing.push(0);
    assert_eq!(
        ConnectPacket::from_bytes(&trailing),
        Err(TransportError::MalformedPacket)
    );

    let mut missing_user = buf.clone();
    missing_user[7] |= 0x80;
    assert_eq!(
        ConnectPacket::from_bytes(&missing_user),
        Err(TransportError::MalformedPacket)
    );

    assert_eq!(
        ConnectPacket::from_bytes(&buf[..5]),
        Err(TransportError::MalformedPacket)
    );
}

#[test]
fn connect_flags_from_byte() {
    assert_eq!(ConnectFlags::from_byte(0x01), None);
    assert_eq!(ConnectFlags::from_byte(0x18), None);
    assert_eq!(
        ConnectFlags::from_byte(0xC2),
        Some(ConnectFlags {
            clean_session: true,
            will: false,
            will_qos: 0,
            will_retain: false,
            password: true,
            username: true,
        })
    );
}

#[test]
fn subscribe_round_trip() {
    let topics = vec![
        SubscriptionTopic {
            qos: Qos::AtMostOnce,
            topic: "a/#".to_string(),
        },
        SubscriptionTopic {
            qos: Qos::ExactlyOnce,
            topic: "b/+/c".to_string(),
        },
        SubscriptionTopic {
            qos: Qos::AtLeastOnce,
            topic: "d".to_string(),
        },
    ];
    let packet = SubscribePacket::new(0x0A0B, topics.clone());
    let mut buf = vec![];
    packet.write(&mut buf);
    let decoded = SubscribePacket::from_bytes(&buf).unwrap();
    assert_eq!(decoded.packet_id, 0x0A0B);
    assert_eq!(decoded.subscription_topics, topics);
}

#[test]
fn subscribe_decode_errors() {
    assert_eq!(
        SubscribePacket::from_bytes(&[0]),
        Err(TransportError::MalformedPacket)
    );
    // The QoS byte of the last subscription is missing.
    assert_eq!(
        SubscribePacket::from_bytes(&[0, 1, 0, 1, b'a']),
        Err(TransportError::MalformedPacket)
    );
    // A QoS of 3 is not allowed.
    assert_eq!(
        SubscribePacket::from_bytes(&[0, 1, 0, 1, b'a', 3]),
        Err(TransportError::MalformedPacket)
    );
    assert_eq!(
        SubscribePacket::from_bytes(&[0, 1, 0, 4, b'a', 3]),
        Err(TransportError::BoundaryCrossed(4))
    );
    let empty = SubscribePacket::from_bytes(&[0, 9]).unwrap();
    assert_eq!(empty.packet_id, 9);
    assert!(empty.subscription_topics.is_empty());
}

#[test]
fn ack_kinds_become_requests() {
    let mut buf = vec![];
    Request::from(AckType::Puback(1)).serialize(&mut buf).unwrap();
    Request::from(AckType::Pubrec(2)).serialize(&mut buf).unwrap();
    Request::from(AckType::Pubrel(3)).serialize(&mut buf).unwrap();
    Request::from(AckType::Pubcomp(4)).serialize(&mut buf).unwrap();
    assert_eq!(
        buf,
        vec![0x40, 2, 0, 1, 0x50, 2, 0, 2, 0x62, 2, 0, 3, 0x70, 2, 0, 4]
    );
}
