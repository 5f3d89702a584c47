use sake::acks::PubackPacket;
use sake::connack::{ConnackPacket, ConnectReturnCode};
use sake::header::{FixedHeader, FixedHeaderFlags, PacketType, Qos};
use sake::message::{encode_qos, Deserialize, Request, Response, Serialize};
use sake::protocol::{
    mqtt_remaining_length_size, read_remaining_length, read_string, write_remaining_length,
    write_string,
};
use sake::publish::PublishPacket;
use sake::subscribe::{SubscribePacket, SubscriptionTopic};
use sake::TransportError;

fn encode_len(n: usize) -> Result<Vec<u8>, TransportError> {
    let mut buf = vec![];
    write_remaining_length(&mut buf, n).map(|_| buf)
}

fn serialize(req: &Request) -> Vec<u8> {
    let mut buf = vec![];
    let n = req.serialize(&mut buf).unwrap();
    assert_eq!(n, buf.len());
    buf
}

#[test]
fn remaining_length_boundaries() {
    assert_eq!(encode_len(0).unwrap(), vec![0x00]);
    assert_eq!(encode_len(127).unwrap(), vec![0x7F]);
    assert_eq!(encode_len(128).unwrap(), vec![0x80, 0x01]);
    assert_eq!(encode_len(16_383).unwrap(), vec![0xFF, 0x7F]);
    assert_eq!(encode_len(16_384).unwrap(), vec![0x80, 0x80, 0x01]);
    assert_eq!(encode_len(268_435_455).unwrap(), vec![0xFF, 0xFF, 0xFF, 0x7F]);
    assert_eq!(encode_len(268_435_456), Err(TransportError::PayloadTooLong));
}

#[test]
fn remaining_length_refused_value_writes_nothing() {
    let mut buf = vec![7u8];
    assert_eq!(
        write_remaining_length(&mut buf, 268_435_456),
        Err(TransportError::PayloadTooLong)
    );
    assert_eq!(buf, vec![7u8]);
    assert_eq!(write_remaining_length(&mut buf, 321), Ok(2));
    assert_eq!(buf, vec![7u8, 0xC1, 0x02]);
}

#[test]
fn remaining_length_decoding() {
    assert_eq!(read_remaining_length(&[0x00]), Ok((0, 1)));
    assert_eq!(read_remaining_length(&[0x7F, 0x55]), Ok((127, 1)));
    assert_eq!(read_remaining_length(&[0x80, 0x01]), Ok((128, 2)));
    assert_eq!(read_remaining_length(&[0xFF, 0x7F]), Ok((16_383, 2)));
    assert_eq!(read_remaining_length(&[0x80, 0x80, 0x01]), Ok((16_384, 3)));
    assert_eq!(
        read_remaining_length(&[0xFF, 0xFF, 0xFF, 0x7F]),
        Ok((268_435_455, 4))
    );
    assert_eq!(
        read_remaining_length(&[0x80, 0x80, 0x80, 0x80, 0x01]),
        Err(TransportError::MalformedRemainingLength)
    );
    assert_eq!(
        read_remaining_length(&[0x80, 0x80]),
        Err(TransportError::InsufficientBytes(1))
    );
    assert_eq!(read_remaining_length(&[]), Err(TransportError::InsufficientBytes(1)));
}

#[test]
fn remaining_length_round_trip() {
    for n in [0usize, 1, 127, 128, 200, 16_383, 16_384, 2_097_151, 2_097_152, 268_435_455] {
        let bytes = encode_len(n).unwrap();
        assert_eq!(read_remaining_length(&bytes), Ok((n as u32, bytes.len())));
        assert_eq!(mqtt_remaining_length_size(n) + 1, bytes.len());
    }
}

#[test]
fn remaining_length_size_values() {
    assert_eq!(mqtt_remaining_length_size(0), 0);
    assert_eq!(mqtt_remaining_length_size(127), 0);
    assert_eq!(mqtt_remaining_length_size(128), 1);
    assert_eq!(mqtt_remaining_length_size(16_384), 2);
    assert_eq!(mqtt_remaining_length_size(2_097_152), 3);
    assert_eq!(mqtt_remaining_length_size(usize::MAX), 3);
}

#[test]
fn string_fields() {
    let mut buf = vec![];
    write_string(&mut buf, "héllo");
    assert_eq!(buf, vec![0, 6, b'h', 0xC3, 0xA9, b'l', b'l', b'o']);
    buf.push(0xEE);
    let (s, n) = read_string(&buf).unwrap();
    assert_eq!(s, "héllo");
    assert_eq!(n, 8);
}

#[test]
fn string_field_errors() {
    assert_eq!(read_string(&[0]), Err(TransportError::MalformedPacket));
    assert_eq!(
        read_string(&[0, 5, b'a', b'b']),
        Err(TransportError::BoundaryCrossed(5))
    );
    assert_eq!(
        read_string(&[0, 2, 0xC3, 0x28]),
        Err(TransportError::StringNotUtf8)
    );
}

#[test]
fn control_bytes() {
    let connect = Request::Connect {
        client_id: "c".to_string(),
        clean_session: false,
    };
    assert_eq!(serialize(&connect)[0], 0x10);
    let publish = Request::Publish {
        packet_id: 3,
        qos: 1,
        topic: "t".to_string(),
        payload: vec![1],
    };
    assert_eq!(serialize(&publish)[0], 0x32);
    for id in [0u16, 1, 0xFFFF] {
        assert_eq!(serialize(&Request::Pubrel { packet_id: id })[0], 0x62);
    }
    assert_eq!(serialize(&Request::Puback { packet_id: 1 })[0], 0x40);
    assert_eq!(serialize(&Request::Pubrec { packet_id: 1 })[0], 0x50);
    assert_eq!(serialize(&Request::Pubcomp { packet_id: 1 })[0], 0x70);
    assert_eq!(serialize(&Request::Disconnect), vec![0xE0, 0x00]);
}

#[test]
fn qos_bits() {
    assert_eq!(encode_qos(0x30, Qos::AtMostOnce), 0x30);
    assert_eq!(encode_qos(0x30, Qos::AtLeastOnce), 0x32);
    assert_eq!(encode_qos(0x30, Qos::ExactlyOnce), 0x34);
    assert_eq!(encode_qos(0x3F, Qos::AtMostOnce), 0x39);
}

#[test]
fn fixed_header_flags() {
    let flags = FixedHeaderFlags::from_byte(0x3B);
    assert_eq!(flags, FixedHeaderFlags::new(true, 1, true));
    assert_eq!(flags.to_byte(), 0x0B);
    let header = FixedHeader::new(0x34, 5);
    assert_eq!(header.packet_type, PacketType::Publish);
    assert_eq!(header.flags.qos, 2);
    assert_eq!(header.remaining_length(), 5);
}

#[test]
fn fixed_header_short_input() {
    assert_eq!(
        FixedHeader::from_bytes(&[0x20]),
        Err(TransportError::InsufficientBytes(1))
    );
    assert_eq!(
        FixedHeader::from_bytes(&[]),
        Err(TransportError::InsufficientBytes(2))
    );
}

#[test]
fn fixed_header_length_too_large() {
    let header = FixedHeader::new(0x30, 268_435_456);
    let mut buf = vec![];
    assert_eq!(header.write(&mut buf), Err(TransportError::PayloadTooLong));
    assert!(buf.is_empty());
}

#[test]
fn connect_end_to_end() {
    let req = Request::Connect {
        client_id: "test-id".to_string(),
        clean_session: false,
    };
    assert_eq!(
        serialize(&req),
        vec![
            0x10, 0x13, 0x00, 0x04, 0x4D, 0x51, 0x54, 0x54, 0x04, 0x00, 0x00, 0x3C, 0x00, 0x07,
            0x74, 0x65, 0x73, 0x74, 0x2D, 0x69, 0x64
        ]
    );
}

#[test]
fn connect_clean_session_flag() {
    let req = Request::Connect {
        client_id: "x".to_string(),
        clean_session: true,
    };
    assert_eq!(serialize(&req)[9], 0x02);
}

#[test]
fn publish_boundary_derivation() {
    let mut body = vec![0u8, 10];
    body.extend_from_slice(b"test-topic");
    body.extend_from_slice(b"payload");
    assert_eq!(body.len(), 19);
    // Bytes of the next packet follow and must be left alone.
    body.extend_from_slice(&[0xE0, 0x00]);
    let header = FixedHeader::new(0x30, 19);
    let publish = PublishPacket::from_bytes(&body, &header).unwrap();
    assert_eq!(publish.topic, "test-topic");
    assert_eq!(publish.payload, b"payload".to_vec());
    assert_eq!(publish.payload.len(), 7);
    assert_eq!(publish.packet_id, 0);
    assert_eq!(publish.qos, 0);
}

#[test]
fn publish_short_body() {
    let header = FixedHeader::new(0x30, 19);
    assert_eq!(
        PublishPacket::from_bytes(&[0, 1, b'a'], &header),
        Err(TransportError::InsufficientBytes(16))
    );
    let header = FixedHeader::new(0x32, 3);
    assert_eq!(
        PublishPacket::from_bytes(&[0, 1, b'a'], &header),
        Err(TransportError::MalformedPacket)
    );
    let header = FixedHeader::new(0x30, 4);
    assert_eq!(
        PublishPacket::from_bytes(&[0, 9, b'a', b'b'], &header),
        Err(TransportError::BoundaryCrossed(9))
    );
}

#[test]
fn publish_write() {
    let packet = PublishPacket::new(0x0102, "a/b".to_string(), vec![9, 8], 1);
    let mut buf = vec![];
    assert_eq!(packet.write(&mut buf), 9);
    assert_eq!(buf, vec![0, 3, b'a', b'/', b'b', 1, 2, 9, 8]);
}

fn round_trip(req: Request) -> Response {
    let mut bytes = serialize(&req);
    let len = bytes.len();
    bytes.extend_from_slice(&[0xAB, 0xCD]);
    let (resp, n) = Response::deserialize(&bytes).unwrap();
    assert_eq!(n, len);
    resp
}

#[test]
fn publish_round_trips() {
    for qos in [0u8, 1, 2] {
        let packet_id = if qos == 0 { 0 } else { 0x1234 };
        let resp = round_trip(Request::Publish {
            packet_id,
            qos,
            topic: "sensors/temp".to_string(),
            payload: vec![1, 2, 3, 4, 5],
        });
        assert_eq!(
            resp,
            Response::Publish {
                packet_id,
                qos,
                topic: "sensors/temp".to_string(),
                payload: vec![1, 2, 3, 4, 5],
            }
        );
    }
}

#[test]
fn publish_qos0_has_no_packet_id_on_wire() {
    let bytes = serialize(&Request::Publish {
        packet_id: 77,
        qos: 0,
        topic: "t".to_string(),
        payload: vec![5],
    });
    assert_eq!(bytes, vec![0x30, 0x04, 0x00, 0x01, b't', 5]);
}

#[test]
fn ack_round_trips() {
    assert_eq!(
        round_trip(Request::Puback { packet_id: 7 }),
        Response::Puback { packet_id: 7 }
    );
    assert_eq!(
        round_trip(Request::Pubrec { packet_id: 8 }),
        Response::Pubrec { packet_id: 8 }
    );
    assert_eq!(
        round_trip(Request::Pubrel { packet_id: 9 }),
        Response::Pubrel { packet_id: 9 }
    );
    assert_eq!(
        round_trip(Request::Pubcomp { packet_id: 10 }),
        Response::Pubcomp { packet_id: 10 }
    );
}

#[test]
fn connack_round_trip() {
    for code in [
        ConnectReturnCode::Success,
        ConnectReturnCode::RefusedProtocolVersion,
        ConnectReturnCode::BadClientId,
        ConnectReturnCode::ServiceUnavailable,
        ConnectReturnCode::BadUserNamePassword,
        ConnectReturnCode::NotAuthorized,
        ConnectReturnCode::Unknown,
    ] {
        let packet = ConnackPacket {
            session_present: true,
            return_code: code,
        };
        let mut buf = vec![];
        assert_eq!(packet.write(&mut buf), 2);
        assert_eq!(ConnackPacket::from_bytes(&buf), Ok(packet));
    }
}

#[test]
fn connack_short_and_unknown_code() {
    assert_eq!(
        ConnackPacket::from_bytes(&[1]),
        Err(TransportError::MalformedPacket)
    );
    assert_eq!(
        ConnackPacket::from_bytes(&[0, 42]).unwrap().return_code,
        ConnectReturnCode::Unknown
    );
    let (resp, n) = Response::deserialize(&[0x20, 0x02, 0x01, 0x05]).unwrap();
    assert_eq!(
        resp,
        Response::Connack {
            session_present: true,
            return_code: 5
        }
    );
    assert_eq!(n, 4);
    assert_eq!(
        Response::deserialize(&[0x20, 0x01, 0x01]),
        Err(TransportError::MalformedPacket)
    );
}

#[test]
fn ack_packet_short_body() {
    assert_eq!(
        PubackPacket::from_bytes(&[1]),
        Err(TransportError::MalformedPacket)
    );
}

#[test]
fn unknown_packet_type_is_skipped() {
    let bytes = [0xF0, 0x03, 0xAA, 0xBB, 0xCC, 0x40, 0x02, 0x00, 0x05];
    let (resp, n) = Response::deserialize(&bytes).unwrap();
    assert_eq!(resp, Response::Unknown);
    assert_eq!(n, 5);
    let (next, m) = Response::deserialize(&bytes[n..]).unwrap();
    assert_eq!(next, Response::Puback { packet_id: 5 });
    assert_eq!(m, 4);
    let (zero, k) = Response::deserialize(&[0x00, 0x00]).unwrap();
    assert_eq!(zero, Response::Unknown);
    assert_eq!(k, 2);
}

#[test]
fn response_needs_whole_body() {
    assert_eq!(
        Response::deserialize(&[0x40, 0x02, 0x00]),
        Err(TransportError::InsufficientBytes(1))
    );
    assert_eq!(
        Response::deserialize(&[0x40]),
        Err(TransportError::InsufficientBytes(1))
    );
}

#[test]
fn sent_only_types_decode_as_unknown() {
    assert_eq!(
        round_trip(Request::Connect {
            client_id: "id".to_string(),
            clean_session: true
        }),
        Response::Unknown
    );
    assert_eq!(round_trip(Request::Disconnect), Response::Unknown);
}

#[test]
fn subscribe_encoding() {
    let topics = vec![
        SubscriptionTopic {
            qos: Qos::AtLeastOnce,
            topic: "a".to_string(),
        },
        SubscriptionTopic {
            qos: Qos::ExactlyOnce,
            topic: "bc".to_string(),
        },
    ];
    let req = Request::Subscribe {
        packet_id: 10,
        subscription_topics: topics.clone(),
    };
    let bytes = serialize(&req);
    assert_eq!(
        bytes,
        vec![0x80, 0x0B, 0x00, 0x0A, 0x00, 0x01, b'a', 0x01, 0x00, 0x02, b'b', b'c', 0x02]
    );
    let packet = SubscribePacket::new(10, topics);
    let mut body = vec![];
    assert_eq!(packet.write(&mut body), 11);
    assert_eq!(body, bytes[2..].to_vec());
}

#[test]
fn oversized_requests_are_refused() {
    let long = "x".repeat(65_536);
    let mut buf = vec![];
    let req = Request::Publish {
        packet_id: 1,
        qos: 1,
        topic: long.clone(),
        payload: vec![],
    };
    assert_eq!(req.serialize(&mut buf), Err(TransportError::PayloadTooLong));
    let req = Request::Connect {
        client_id: long,
        clean_session: false,
    };
    assert_eq!(req.serialize(&mut buf), Err(TransportError::PayloadTooLong));
    let req = Request::Publish {
        packet_id: 1,
        qos: 0,
        topic: "t".to_string(),
        payload: vec![0; 268_435_455],
    };
    assert_eq!(req.serialize(&mut buf), Err(TransportError::PayloadTooLong));
    let req = Request::Publish {
        packet_id: 1,
        qos: 3,
        topic: "t".to_string(),
        payload: vec![],
    };
    assert_eq!(req.serialize(&mut buf), Err(TransportError::MalformedPacket));
    assert!(buf.is_empty());
}

#[test]
fn packet_type_numbers() {
    assert_eq!(u8::from(&PacketType::Disconnect), 0x0E);
    assert_eq!(PacketType::from(0x0E), PacketType::Disconnect);
    assert_eq!(PacketType::from(0x0F), PacketType::Unknown);
    assert_eq!(Qos::from_u8(2), Some(Qos::ExactlyOnce));
    assert_eq!(Qos::from_u8(3), None);
    assert_eq!(u8::from(&Qos::AtLeastOnce), 1);
}
