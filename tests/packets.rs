use byteorder::WriteBytesExt;
use sake::acks::{PubackPacket, PubcompPacket, PubrecPacket, PubrelPacket};
use sake::connack::{ConnackPacket, ConnectReturnCode};
use sake::connect::{ConnectPacket, ConnectPayload, ConnectVariableHeader};
use sake::header::{FixedHeader, FixedHeaderFlags, PacketType};
use std::io;

#[test]
fn connack_test_from_stream() -> io::Result<()> {
    let mut buf: Vec<u8> = vec![];
    buf.write_u8(0)?;
    buf.write_u8(0)?;

    let connack = ConnackPacket::from_bytes(&buf).unwrap();
    assert_eq!(
        connack,
        ConnackPacket {
            session_present: false,
            return_code: ConnectReturnCode::Success
        }
    );
    Ok(())
}

#[test]
fn test_from_stream_session() -> io::Result<()> {
    let mut buf: Vec<u8> = vec![];
    buf.write_u8(1)?;
    buf.write_u8(0)?;

    let connack = ConnackPacket::from_bytes(&buf).unwrap();
    assert_eq!(
        connack,
        ConnackPacket {
            session_present: true,
            return_code: ConnectReturnCode::Success
        }
    );
    Ok(())
}

#[test]
fn test_from_stream_return_code_refused_protocol_version() -> io::Result<()> {
    let mut buf: Vec<u8> = vec![];
    buf.write_u8(1)?;
    buf.write_u8(1)?;

    let connack = ConnackPacket::from_bytes(&buf).unwrap();
    assert_eq!(
        connack,
        ConnackPacket {
            session_present: true,
            return_code: ConnectReturnCode::RefusedProtocolVersion
        }
    );
    Ok(())
}

#[test]
fn connect_test_new() {
    let connect = ConnectPacket::new("test-id".into(), false);
    assert_eq!(
        connect,
        ConnectPacket {
            variable_header: ConnectVariableHeader::new(false, 60),
            payload: ConnectPayload::new("test-id".into())
        }
    );
}

#[test]
fn connect_test_write() {
    let connect = ConnectPacket::new("test-id".into(), false);
    let mut buffer = vec![];
    connect.write(&mut buffer);
    assert_eq!(
        buffer,
        &[0, 4, 77, 81, 84, 84, 4, 0, 0, 60, 0, 7, 116, 101, 115, 116, 45, 105, 100]
    );
}

#[test]
fn mod_test_new() {
    let fixed_header = FixedHeader::new(0x10, 18);
    assert_eq!(
        fixed_header,
        FixedHeader {
            packet_type: PacketType::Connect,
            flags: FixedHeaderFlags {
                retain: false,
                qos: 0,
                dup: false
            },
            remaining_length: 18
        }
    );
}

#[test]
fn mod_test_from_stream() {
    let buf = &[0x10, 0x12, 0x04, b'M', b'Q', b'T', b'T', 0x04];
    let (fixed_header, consumed) = FixedHeader::from_bytes(buf.as_slice()).unwrap();
    assert_eq!(
        fixed_header,
        FixedHeader {
            packet_type: PacketType::Connect,
            flags: FixedHeaderFlags {
                retain: false,
                qos: 0,
                dup: false
            },
            remaining_length: 18
        }
    );
    assert_eq!(consumed, 2);
}

#[test]
fn mod_test_write() {
    let fixed_header = FixedHeader::new(0x10, 18);
    let mut buffer = vec![];
    fixed_header.write(&mut buffer).unwrap();
    assert_eq!(buffer, &[16, 18]);
}

#[test]
fn puback_test_from_bytes() -> io::Result<()> {
    let bytes = &[2, 6];
    let puback = PubackPacket::from_bytes(bytes.as_slice()).unwrap();
    assert_eq!(puback, PubackPacket { packet_id: 518 });
    Ok(())
}

#[test]
fn pubcomp_test_write() -> io::Result<()> {
    let pubcomp = PubcompPacket { packet_id: 15 };
    let mut buf = vec![];
    pubcomp.write(&mut buf);
    assert_eq!(buf, &[0, 15]);
    Ok(())
}

#[test]
fn pubcomp_test_from_bytes() -> io::Result<()> {
    let bytes = &[2, 6];
    let pubcomp = PubcompPacket::from_bytes(bytes.as_slice()).unwrap();
    assert_eq!(pubcomp, PubcompPacket { packet_id: 518 });
    Ok(())
}

#[test]
fn pubrec_test_from_bytes() -> io::Result<()> {
    let bytes = &[2, 6];
    let pubrec = PubrecPacket::from_bytes(bytes.as_slice()).unwrap();
    assert_eq!(pubrec, PubrecPacket { packet_id: 518 });
    Ok(())
}

#[test]
fn pubrel_test_write() -> io::Result<()> {
    let pubrel = PubrelPacket { packet_id: 15 };
    let mut buf = vec![];
    pubrel.write(&mut buf);
    assert_eq!(buf, &[0, 15]);
    Ok(())
}

#[test]
fn pubrel_test_from_bytes() -> io::Result<()> {
    let bytes = &[2, 6];
    let pubrel = PubrelPacket::from_bytes(bytes.as_slice()).unwrap();
    assert_eq!(pubrel, PubrelPacket { packet_id: 518 });
    Ok(())
}
