//! PUBLISH: a topic, a packet id when the QoS asks for one, and a payload
//! that runs to the end of the packet.
use crate::header::FixedHeader;
use crate::protocol::{
    be_u16, fits_string_field, lemma_string_round_trip, parse_string, read_string, read_u16,
    string_field, u16_be, write_bytes, write_string, write_u16, TransportError,
};
use vstd::prelude::*;
use vstd::slice::{slice_subrange, slice_to_vec};

verus! {

#[derive(Debug, PartialEq, Eq)]
pub struct PublishPacket {
    pub packet_id: u16,
    pub qos: u8,
    pub topic: String,
    pub payload: Vec<u8>,
}

/// What a `PublishPacket` holds, as plain values.
pub struct PublishView {
    pub packet_id: u16,
    pub qos: u8,
    pub topic: Seq<char>,
    pub payload: Seq<u8>,
}

impl View for PublishPacket {
    type V = PublishView;

    open spec fn view(&self) -> PublishView {
        PublishView {
            packet_id: self.packet_id,
            qos: self.qos,
            topic: self.topic@,
            payload: self.payload@,
        }
    }
}

/// Whether `p` can be written: a QoS of 0 to 2 and a topic that fits in a
/// string field.
pub open spec fn publish_encodable(p: PublishView) -> bool {
    p.qos <= 2 && fits_string_field(p.topic)
}

/// The body of a PUBLISH: the topic, the packet id only if the QoS is above
/// 0, then the payload with no length of its own.
pub open spec fn publish_bytes(p: PublishView) -> Seq<u8> {
    string_field(p.topic) + (if p.qos > 0 {
        u16_be(p.packet_id)
    } else {
        Seq::<u8>::empty()
    }) + p.payload
}

/// Decodes the body of a PUBLISH from the start of `s`, given its fixed
/// header: the body is the first `remaining_length` bytes, and the payload is
/// what the topic and packet id leave of it.
pub open spec fn parse_publish(s: Seq<u8>, h: FixedHeader) -> Result<PublishView, TransportError> {
    let len = h.remaining_length as int;
    let qos = h.flags.qos;
    if s.len() < len {
        Err(TransportError::InsufficientBytes((len - s.len()) as usize))
    } else if qos > 2 {
        Err(TransportError::MalformedPacket)
    } else {
        let body = s.subrange(0, len);
        match parse_string(body) {
            Err(e) => Err(e),
            Ok((topic, n)) => if qos == 0 {
                Ok(
                    PublishView {
                        packet_id: 0,
                        qos,
                        topic,
                        payload: body.subrange(n as int, len),
                    },
                )
            } else if n + 2 > len {
                Err(TransportError::MalformedPacket)
            } else {
                Ok(
                    PublishView {
                        packet_id: be_u16(body[n as int], body[n + 1int]),
                        qos,
                        topic,
                        payload: body.subrange(n + 2int, len),
                    },
                )
            },
        }
    }
}

impl PublishPacket {
    pub fn new(packet_id: u16, topic: String, payload: Vec<u8>, qos: u8) -> (r: Self)
        ensures
            r@ == (PublishView { packet_id, qos, topic: topic@, payload: payload@ }),
    {
        Self { packet_id, qos, topic, payload }
    }

    /// Appends the body of this PUBLISH and returns its length.
    pub fn write(&self, buf: &mut Vec<u8>) -> (r: usize)
        requires
            publish_encodable(self@),
        ensures
            final(buf)@ == old(buf)@ + publish_bytes(self@),
            r == publish_bytes(self@).len(),
    {
        let start = buf.len();
        write_string(buf, self.topic.as_str());
        if self.qos > 0 {
            write_u16(buf, self.packet_id);
        }
        write_bytes(buf, self.payload.as_slice());
        assert(final(buf)@ =~= old(buf)@ + publish_bytes(self@));
        buf.len() - start
    }

    /// Reads the body of a PUBLISH from the start of `buf`, given its fixed
    /// header, which bounds the body and gives the QoS.
    pub fn from_bytes(buf: &[u8], fixed_header: &FixedHeader) -> (r: Result<Self, TransportError>)
        ensures
            r is Ok <==> parse_publish(buf@, *fixed_header) is Ok,
            r matches Ok(p) ==> parse_publish(buf@, *fixed_header) == Ok::<
                PublishView,
                TransportError,
            >(p@),
            r matches Err(e) ==> parse_publish(buf@, *fixed_header) == Err::<
                PublishView,
                TransportError,
            >(e),
    {
        let len = fixed_header.remaining_length() as usize;
        let qos = fixed_header.flags.qos;
        if buf.len() < len {
            return Err(TransportError::InsufficientBytes(len - buf.len()));
        }
        if qos > 2 {
            return Err(TransportError::MalformedPacket);
        }
        let body = slice_subrange(buf, 0, len);
        let (topic, mut bytes_read) = read_string(body)?;
        let mut packet_id: u16 = 0;
        if qos > 0 {
            if bytes_read + 2 > len {
                return Err(TransportError::MalformedPacket);
            }
            packet_id = read_u16(slice_subrange(body, bytes_read, len));
            bytes_read = bytes_read + 2;
        }
        // The payload is whatever the variable header leaves of the
        // remaining length.
        let payload = slice_to_vec(slice_subrange(body, bytes_read, len));
        Ok(Self { packet_id, qos, topic, payload })
    }
}

/// Decoding the body of a PUBLISH, under a fixed header that gives its QoS
/// and exact length, gives the packet back, whatever follows; at QoS 0 the
/// packet id is not on the wire, so it comes back as 0.
pub proof fn lemma_publish_round_trip(p: PublishView, h: FixedHeader, rest: Seq<u8>)
    requires
        publish_encodable(p),
        p.qos == 0 ==> p.packet_id == 0,
        h.flags.qos == p.qos,
        h.remaining_length == publish_bytes(p).len(),
    ensures
        parse_publish(publish_bytes(p) + rest, h) == Ok::<PublishView, TransportError>(p),
{
    let bytes = publish_bytes(p);
    let s = bytes + rest;
    let len = bytes.len() as int;
    let body = s.subrange(0, len);
    assert(body =~= bytes);
    let id_part = if p.qos > 0 {
        u16_be(p.packet_id)
    } else {
        Seq::<u8>::empty()
    };
    let tail = id_part + p.payload;
    assert(bytes =~= string_field(p.topic) + tail);
    lemma_string_round_trip(p.topic, tail);
    let n = string_field(p.topic).len() as int;
    if p.qos > 0 {
        assert(body[n] == u16_be(p.packet_id)[0]);
        assert(body[n + 1] == u16_be(p.packet_id)[1]);
        assert(body.subrange(n + 2, len) =~= p.payload);
    } else {
        assert(body.subrange(n, len) =~= p.payload);
    }
}

} // verus!
