//! The fixed header: packet type, flag bits and remaining length.
use crate::protocol::{
    lemma_varint_len, lemma_varint_round_trip, parse_varint, read_remaining_length, varint,
    write_remaining_length, TransportError, MAX_PAYLOAD_SIZE,
};
use vstd::prelude::*;

verus! {

/// The kinds of control packet this library knows.
#[derive(PartialEq, Eq, Structural, Debug, Copy, Clone)]
pub enum PacketType {
    Connect,
    Connack,
    Publish,
    Puback,
    Pubrec,
    Pubrel,
    Pubcomp,
    Subscribe,
    Disconnect,
    Unknown,
}

/// The number that stands for `t` in the top four bits of the control byte;
/// `Unknown` has none and is written as `0xFF`.
pub open spec fn packet_type_code(t: PacketType) -> u8 {
    match t {
        PacketType::Connect => 0x01,
        PacketType::Connack => 0x02,
        PacketType::Publish => 0x03,
        PacketType::Puback => 0x04,
        PacketType::Pubrec => 0x05,
        PacketType::Pubrel => 0x06,
        PacketType::Pubcomp => 0x07,
        PacketType::Subscribe => 0x08,
        PacketType::Disconnect => 0x0E,
        PacketType::Unknown => 0xFF,
    }
}

/// The packet type that the number `n` stands for.
pub open spec fn packet_type_of(n: u8) -> PacketType {
    if n == 0x1 {
        PacketType::Connect
    } else if n == 0x2 {
        PacketType::Connack
    } else if n == 0x3 {
        PacketType::Publish
    } else if n == 0x4 {
        PacketType::Puback
    } else if n == 0x5 {
        PacketType::Pubrec
    } else if n == 0x6 {
        PacketType::Pubrel
    } else if n == 0x7 {
        PacketType::Pubcomp
    } else if n == 0x8 {
        PacketType::Subscribe
    } else if n == 0xE {
        PacketType::Disconnect
    } else {
        PacketType::Unknown
    }
}

impl From<&PacketType> for u8 {
    fn from(orig: &PacketType) -> (r: u8)
        ensures
            r == packet_type_code(*orig),
    {
        match orig {
            PacketType::Connect => 0x01,
            PacketType::Connack => 0x02,
            PacketType::Publish => 0x03,
            PacketType::Puback => 0x04,
            PacketType::Pubrec => 0x05,
            PacketType::Pubrel => 0x06,
            PacketType::Pubcomp => 0x07,
            PacketType::Subscribe => 0x08,
            PacketType::Disconnect => 0x0e,
            PacketType::Unknown => 0xFF,
        }
    }
}

impl vstd::std_specs::convert::FromSpecImpl<&PacketType> for u8 {
    open spec fn obeys_from_spec() -> bool {
        true
    }

    open spec fn from_spec(orig: &PacketType) -> u8 {
        packet_type_code(*orig)
    }
}

impl From<u8> for PacketType {
    fn from(orig: u8) -> (r: PacketType)
        ensures
            r == packet_type_of(orig),
    {
        match orig {
            0x1 => PacketType::Connect,
            0x2 => PacketType::Connack,
            0x3 => PacketType::Publish,
            0x4 => PacketType::Puback,
            0x5 => PacketType::Pubrec,
            0x6 => PacketType::Pubrel,
            0x7 => PacketType::Pubcomp,
            0x8 => PacketType::Subscribe,
            0xE => PacketType::Disconnect,
            _ => PacketType::Unknown,
        }
    }
}

impl vstd::std_specs::convert::FromSpecImpl<u8> for PacketType {
    open spec fn obeys_from_spec() -> bool {
        true
    }

    open spec fn from_spec(orig: u8) -> PacketType {
        packet_type_of(orig)
    }
}

/// Every known packet type reads back from its own number.
pub proof fn lemma_packet_type_code(t: PacketType)
    ensures
        packet_type_of(packet_type_code(t) & 0x0F) == t,
{
    let c = packet_type_code(t);
    assert(0x01u8 & 0x0F == 0x01) by (bit_vector);
    assert(0x02u8 & 0x0F == 0x02) by (bit_vector);
    assert(0x03u8 & 0x0F == 0x03) by (bit_vector);
    assert(0x04u8 & 0x0F == 0x04) by (bit_vector);
    assert(0x05u8 & 0x0F == 0x05) by (bit_vector);
    assert(0x06u8 & 0x0F == 0x06) by (bit_vector);
    assert(0x07u8 & 0x0F == 0x07) by (bit_vector);
    assert(0x08u8 & 0x0F == 0x08) by (bit_vector);
    assert(0x0Eu8 & 0x0F == 0x0E) by (bit_vector);
    assert(0xFFu8 & 0x0F == 0x0F) by (bit_vector);
}

/// Delivery guarantee of a message.
#[derive(PartialEq, Eq, Structural, Debug, Copy, Clone)]
pub enum Qos {
    AtMostOnce,
    AtLeastOnce,
    ExactlyOnce,
}

/// The number that stands for `q` on the wire.
pub open spec fn qos_code(q: Qos) -> u8 {
    match q {
        Qos::AtMostOnce => 0,
        Qos::AtLeastOnce => 1,
        Qos::ExactlyOnce => 2,
    }
}

impl Qos {
    /// The level that `orig` stands for; there is none above 2.
    pub fn from_u8(orig: u8) -> (r: Option<Qos>)
        ensures
            orig <= 2 <==> r is Some,
            r matches Some(q) ==> qos_code(q) == orig,
    {
        match orig {
            0 => Some(Qos::AtMostOnce),
            1 => Some(Qos::AtLeastOnce),
            2 => Some(Qos::ExactlyOnce),
            _ => None,
        }
    }
}

impl From<&Qos> for u8 {
    fn from(orig: &Qos) -> (r: u8)
        ensures
            r == qos_code(*orig),
    {
        match orig {
            Qos::AtMostOnce => 0,
            Qos::AtLeastOnce => 1,
            Qos::ExactlyOnce => 2,
        }
    }
}

impl vstd::std_specs::convert::FromSpecImpl<&Qos> for u8 {
    open spec fn obeys_from_spec() -> bool {
        true
    }

    open spec fn from_spec(orig: &Qos) -> u8 {
        qos_code(*orig)
    }
}

/// The four acknowledgments, each with the packet id it answers.
#[derive(PartialEq, Eq, Structural, Debug, Copy, Clone)]
pub enum AckType {
    Puback(u16),
    Pubrec(u16),
    Pubrel(u16),
    Pubcomp(u16),
}

/// The low four bits of the control byte.
#[derive(PartialEq, Eq, Structural, Debug, Copy, Clone)]
pub struct FixedHeaderFlags {
    pub retain: bool,
    pub qos: u8,
    pub dup: bool,
}

/// The flags that the low four bits of `byte` carry: RETAIN in bit 0, QoS in
/// bits 1 and 2, DUP in bit 3.
pub open spec fn flags_of(byte: u8) -> FixedHeaderFlags {
    FixedHeaderFlags { retain: byte & 1 == 1, qos: (byte >> 1) & 3, dup: (byte >> 3) & 1 == 1 }
}

/// The flag bits of `f`, laid out as `flags_of` reads them.
pub open spec fn flags_byte(f: FixedHeaderFlags) -> u8 {
    let r: u8 = if f.retain {
        1
    } else {
        0
    };
    let d: u8 = if f.dup {
        1
    } else {
        0
    };
    r | (f.qos << 1) | (d << 3)
}

proof fn lemma_flag_bits(r: u8, q: u8, d: u8)
    by (bit_vector)
    requires
        r <= 1,
        q <= 3,
        d <= 1,
    ensures
        (r | (q << 1) | (d << 3)) & 1 == r,
        ((r | (q << 1) | (d << 3)) >> 1) & 3 == q,
        ((r | (q << 1) | (d << 3)) >> 3) & 1 == d,
        (r | (q << 1) | (d << 3)) & 0x0F == (r | (q << 1) | (d << 3)),
{
}

/// Flags with a two-bit QoS read back from their own bits.
pub proof fn lemma_flags_round_trip(f: FixedHeaderFlags)
    requires
        f.qos <= 3,
    ensures
        flags_of(flags_byte(f)) == f,
        flags_byte(f) & 0x0F == flags_byte(f),
{
    let r: u8 = if f.retain {
        1
    } else {
        0
    };
    let d: u8 = if f.dup {
        1
    } else {
        0
    };
    lemma_flag_bits(r, f.qos, d);
}

impl FixedHeaderFlags {
    pub fn new(retain: bool, qos: u8, dup: bool) -> (r: Self)
        ensures
            r == (FixedHeaderFlags { retain, qos, dup }),
    {
        Self { retain, qos, dup }
    }

    /// The flags held in the low four bits of `byte`.
    pub fn from_byte(byte: u8) -> (r: Self)
        ensures
            r == flags_of(byte),
    {
        Self::new(byte & 1 == 1, (byte >> 1) & 3, (byte >> 3) & 1 == 1)
    }

    /// The flags as the low bits of a control byte.
    pub fn to_byte(&self) -> (r: u8)
        ensures
            r == flags_byte(*self),
    {
        let r: u8 = if self.retain {
            1
        } else {
            0
        };
        let d: u8 = if self.dup {
            1
        } else {
            0
        };
        r | (self.qos << 1) | (d << 3)
    }
}

/// The first part of every packet: a control byte holding the packet type
/// and flags, then the length of everything that follows.
#[derive(PartialEq, Eq, Structural, Debug, Copy, Clone)]
pub struct FixedHeader {
    pub packet_type: PacketType,
    pub flags: FixedHeaderFlags,
    pub remaining_length: u32,
}

/// The header that control byte `byte` and remaining length `len` describe.
pub open spec fn header_of(byte: u8, len: u32) -> FixedHeader {
    FixedHeader {
        packet_type: packet_type_of(byte >> 4),
        flags: flags_of(byte),
        remaining_length: len,
    }
}

/// The control byte of `h`: the type's number in the top four bits, the
/// flags in the low four.
pub open spec fn control_byte(h: FixedHeader) -> u8 {
    (packet_type_code(h.packet_type) << 4) | (flags_byte(h.flags) & 0x0F)
}

/// The bytes of `h` on the wire.
pub open spec fn header_bytes(h: FixedHeader) -> Seq<u8> {
    seq![control_byte(h)] + varint(h.remaining_length as nat)
}

/// Decodes the fixed header at the start of `s`: the header and the number
/// of bytes it takes.
pub open spec fn parse_fixed_header(s: Seq<u8>) -> Result<(FixedHeader, nat), TransportError> {
    if s.len() < 2 {
        Err(TransportError::InsufficientBytes((2 - s.len()) as usize))
    } else {
        match parse_varint(s.subrange(1, s.len() as int)) {
            Ok((len, n)) => Ok((header_of(s[0], len as u32), n + 1)),
            Err(e) => Err(e),
        }
    }
}

impl FixedHeader {
    pub fn new(byte: u8, remaining_length: u32) -> (r: FixedHeader)
        ensures
            r == header_of(byte, remaining_length),
    {
        FixedHeader {
            packet_type: PacketType::from(byte >> 4),
            flags: FixedHeaderFlags::from_byte(byte),
            remaining_length,
        }
    }

    pub fn remaining_length(&self) -> (r: u32)
        ensures
            r == self.remaining_length,
    {
        self.remaining_length
    }

    /// Reads the fixed header at the start of `bytes`, returning it and the
    /// number of bytes it takes.
    pub fn from_bytes(bytes: &[u8]) -> (r: Result<(FixedHeader, usize), TransportError>)
        ensures
            r is Ok <==> parse_fixed_header(bytes@) is Ok,
            r matches Ok((h, n)) ==> parse_fixed_header(bytes@) == Ok::<
                (FixedHeader, nat),
                TransportError,
            >((h, n as nat)) && h.remaining_length <= MAX_PAYLOAD_SIZE && 2 <= n <= 5 && n
                <= bytes@.len(),
            r matches Err(e) ==> parse_fixed_header(bytes@) == Err::<(FixedHeader, nat), TransportError>(
                e,
            ),
    {
        if bytes.len() < 2 {
            return Err(TransportError::InsufficientBytes(2 - bytes.len()));
        }
        let opcode = bytes[0];
        let rest = vstd::slice::slice_subrange(bytes, 1, bytes.len());
        match read_remaining_length(rest) {
            Ok((len, n)) => Ok((FixedHeader::new(opcode, len), n + 1)),
            Err(e) => Err(e),
        }
    }

    /// Appends the header to `buf`. A remaining length above
    /// `MAX_PAYLOAD_SIZE` is refused before anything is written.
    pub fn write(&self, buf: &mut Vec<u8>) -> (r: Result<(), TransportError>)
        ensures
            self.remaining_length > MAX_PAYLOAD_SIZE ==> r == Err::<(), TransportError>(
                TransportError::PayloadTooLong,
            ) && final(buf)@ == old(buf)@,
            self.remaining_length <= MAX_PAYLOAD_SIZE ==> r is Ok && final(buf)@ == old(buf)@
                + header_bytes(*self),
    {
        let len = self.remaining_length as usize;
        if len > MAX_PAYLOAD_SIZE {
            return Err(TransportError::PayloadTooLong);
        }
        let byte = u8::from(&self.packet_type) << 4 | (self.flags.to_byte() & 0x0F);
        buf.push(byte);
        let _ = write_remaining_length(buf, len);
        assert(final(buf)@ =~= old(buf)@ + header_bytes(*self));
        Ok(())
    }
}

/// Decoding the bytes of a header gives the header back, whatever follows
/// it, where its QoS fits in two bits and its length can be encoded.
pub proof fn lemma_fixed_header_round_trip(h: FixedHeader, rest: Seq<u8>)
    requires
        h.flags.qos <= 3,
        h.remaining_length <= MAX_PAYLOAD_SIZE,
    ensures
        parse_fixed_header(header_bytes(h) + rest) == Ok::<(FixedHeader, nat), TransportError>(
            (h, header_bytes(h).len()),
        ),
{
    let s = header_bytes(h) + rest;
    let len = h.remaining_length as nat;
    lemma_varint_len(len);
    lemma_varint_round_trip(len, rest);
    assert(s.subrange(1, s.len() as int) =~= varint(len) + rest);
    lemma_flags_round_trip(h.flags);
    lemma_packet_type_code(h.packet_type);
    let c = packet_type_code(h.packet_type);
    let f = flags_byte(h.flags);
    assert((((c << 4) | (f & 0x0F)) >> 4) == c & 0x0F) by (bit_vector);
    assert(((c << 4) | (f & 0x0F)) & 0x0F == f & 0x0F) by (bit_vector);
    assert(flags_of((c << 4) | (f & 0x0F)) == flags_of(f)) by {
        let b = (c << 4) | (f & 0x0F);
        assert(b & 1 == (b & 0x0F) & 1) by (bit_vector);
        assert((b >> 1) & 3 == ((b & 0x0F) >> 1) & 3) by (bit_vector);
        assert((b >> 3) & 1 == ((b & 0x0F) >> 3) & 1) by (bit_vector);
        assert(f & 1 == (f & 0x0F) & 1) by (bit_vector);
        assert((f >> 1) & 3 == ((f & 0x0F) >> 1) & 3) by (bit_vector);
        assert((f >> 3) & 1 == ((f & 0x0F) >> 3) & 1) by (bit_vector);
    }
}

} // verus!
