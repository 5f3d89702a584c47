//! PUBACK, PUBREC, PUBREL and PUBCOMP: a packet id each, told apart by the
//! packet type in their fixed header.
use crate::protocol::{be_u16, read_u16, u16_be, write_u16, TransportError};
use vstd::prelude::*;

verus! {

/// Decodes a packet id from the start of `s`.
pub open spec fn parse_packet_id(s: Seq<u8>) -> Result<u16, TransportError> {
    if s.len() < 2 {
        Err(TransportError::MalformedPacket)
    } else {
        Ok(be_u16(s[0], s[1]))
    }
}

/// Reads a packet id from the start of `bytes`.
pub fn read_packet_id(bytes: &[u8]) -> (r: Result<u16, TransportError>)
    ensures
        r == parse_packet_id(bytes@),
{
    if bytes.len() < 2 {
        return Err(TransportError::MalformedPacket);
    }
    Ok(read_u16(bytes))
}

/// Decoding the bytes of a packet id gives it back, whatever follows.
pub proof fn lemma_packet_id_round_trip(id: u16, rest: Seq<u8>)
    ensures
        parse_packet_id(u16_be(id) + rest) == Ok::<u16, TransportError>(id),
{
    let s = u16_be(id) + rest;
    assert(s[0] == u16_be(id)[0]);
    assert(s[1] == u16_be(id)[1]);
}

#[derive(Debug, Clone, Copy, PartialEq, Eq, Structural)]
pub struct PubackPacket {
    pub packet_id: u16,
}

impl PubackPacket {
    /// Appends the packet id and returns the number of bytes written.
    pub fn write(&self, buf: &mut Vec<u8>) -> (r: usize)
        ensures
            final(buf)@ == old(buf)@ + u16_be(self.packet_id),
            r == 2,
    {
        write_u16(buf, self.packet_id);
        2
    }

    /// Reads the packet id from the start of `bytes`.
    pub fn from_bytes(bytes: &[u8]) -> (r: Result<Self, TransportError>)
        ensures
            r is Ok <==> parse_packet_id(bytes@) is Ok,
            r matches Ok(p) ==> parse_packet_id(bytes@) == Ok::<u16, TransportError>(p.packet_id),
            r matches Err(e) ==> parse_packet_id(bytes@) == Err::<u16, TransportError>(e),
    {
        let packet_id = read_packet_id(bytes)?;
        Ok(Self { packet_id })
    }
}

#[derive(Debug, Clone, Copy, PartialEq, Eq, Structural)]
pub struct PubrecPacket {
    pub packet_id: u16,
}

impl PubrecPacket {
    /// Appends the packet id and returns the number of bytes written.
    pub fn write(&self, buf: &mut Vec<u8>) -> (r: usize)
        ensures
            final(buf)@ == old(buf)@ + u16_be(self.packet_id),
            r == 2,
    {
        write_u16(buf, self.packet_id);
        2
    }

    /// Reads the packet id from the start of `bytes`.
    pub fn from_bytes(bytes: &[u8]) -> (r: Result<Self, TransportError>)
        ensures
            r is Ok <==> parse_packet_id(bytes@) is Ok,
            r matches Ok(p) ==> parse_packet_id(bytes@) == Ok::<u16, TransportError>(p.packet_id),
            r matches Err(e) ==> parse_packet_id(bytes@) == Err::<u16, TransportError>(e),
    {
        let packet_id = read_packet_id(bytes)?;
        Ok(Self { packet_id })
    }
}

#[derive(Debug, Clone, Copy, PartialEq, Eq, Structural)]
pub struct PubrelPacket {
    pub packet_id: u16,
}

impl PubrelPacket {
    /// Appends the packet id and returns the number of bytes written.
    pub fn write(&self, buf: &mut Vec<u8>) -> (r: usize)
        ensures
            final(buf)@ == old(buf)@ + u16_be(self.packet_id),
            r == 2,
    {
        write_u16(buf, self.packet_id);
        2
    }

    /// Reads the packet id from the start of `bytes`.
    pub fn from_bytes(bytes: &[u8]) -> (r: Result<Self, TransportError>)
        ensures
            r is Ok <==> parse_packet_id(bytes@) is Ok,
            r matches Ok(p) ==> parse_packet_id(bytes@) == Ok::<u16, TransportError>(p.packet_id),
            r matches Err(e) ==> parse_packet_id(bytes@) == Err::<u16, TransportError>(e),
    {
        let packet_id = read_packet_id(bytes)?;
        Ok(Self { packet_id })
    }
}

#[derive(Debug, Clone, Copy, PartialEq, Eq, Structural)]
pub struct PubcompPacket {
    pub packet_id: u16,
}

impl PubcompPacket {
    /// Appends the packet id and returns the number of bytes written.
    pub fn write(&self, buf: &mut Vec<u8>) -> (r: usize)
        ensures
            final(buf)@ == old(buf)@ + u16_be(self.packet_id),
            r == 2,
    {
        write_u16(buf, self.packet_id);
        2
    }

    /// Reads the packet id from the start of `bytes`.
    pub fn from_bytes(bytes: &[u8]) -> (r: Result<Self, TransportError>)
        ensures
            r is Ok <==> parse_packet_id(bytes@) is Ok,
            r matches Ok(p) ==> parse_packet_id(bytes@) == Ok::<u16, TransportError>(p.packet_id),
            r matches Err(e) ==> parse_packet_id(bytes@) == Err::<u16, TransportError>(e),
    {
        let packet_id = read_packet_id(bytes)?;
        Ok(Self { packet_id })
    }
}

} // verus!
