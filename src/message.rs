//! Whole packets: the outbound `Request`, written with its fixed header, and
//! the inbound `Response`, chosen by the packet type of its fixed header.
use crate::acks::{
    lemma_packet_id_round_trip, parse_packet_id, PubackPacket, PubcompPacket, PubrecPacket,
    PubrelPacket,
};
use crate::connack::{parse_connack, return_code_byte, ConnackPacket};
use crate::connect::{connect_bytes, new_connect_view, ConnectPacket};
use crate::header::{
    header_of, packet_type_of, parse_fixed_header, qos_code, AckType, FixedHeader,
    PacketType, Qos,
};
use crate::protocol::{
    fits_string_field, lemma_varint_len, lemma_varint_round_trip, u16_be, varint,
    write_remaining_length, TransportError, MAX_PAYLOAD_SIZE,
};
use crate::publish::{
    lemma_publish_round_trip, parse_publish, publish_bytes, PublishPacket, PublishView,
};
use crate::subscribe::{
    lemma_subscriptions_bytes_push, subscribe_bytes, subscription_bytes, subscriptions_bytes,
    subscriptions_encodable, topics_view, write_subscribe_body, SubscriptionTopic, SubscriptionView,
};
use vstd::prelude::*;
use vstd::slice::{slice_subrange, slice_to_vec};

verus! {

/// Something that can be written as bytes.
pub trait Serialize {
    /// Appends the encoding of `self` to `buf` and returns how many bytes it
    /// took.
    fn serialize(&self, buf: &mut Vec<u8>) -> Result<usize, TransportError>;
}

/// Something that can be read from bytes.
pub trait Deserialize {
    /// The type that this deserializes to
    type Output;

    /// Reads one value from the start of `buf`, returning it and the number
    /// of bytes it took.
    fn deserialize(buf: &[u8]) -> Result<(Self::Output, usize), TransportError>;
}

/// A packet to send.
#[derive(Debug)]
pub enum Request {
    Connect { client_id: String, clean_session: bool },
    Publish { packet_id: u16, qos: u8, topic: String, payload: Vec<u8> },
    Puback { packet_id: u16 },
    Pubrec { packet_id: u16 },
    Pubrel { packet_id: u16 },
    Pubcomp { packet_id: u16 },
    Subscribe { packet_id: u16, subscription_topics: Vec<SubscriptionTopic> },
    Disconnect,
}

/// The control byte of `r`: the packet type in the top four bits, and the
/// flags the protocol fixes for it (the QoS for PUBLISH, `0b0010` for
/// PUBREL).
pub open spec fn request_code(r: Request) -> u8 {
    match r {
        Request::Connect { .. } => 0x10,
        Request::Publish { qos, .. } => (0x30 + 2 * qos) as u8,
        Request::Puback { .. } => 0x40,
        Request::Pubrec { .. } => 0x50,
        Request::Pubrel { .. } => 0x62,
        Request::Pubcomp { .. } => 0x70,
        Request::Subscribe { .. } => 0x80,
        Request::Disconnect => 0xE0,
    }
}

/// The body of `r`: everything after its fixed header.
pub open spec fn request_body(r: Request) -> Seq<u8> {
    match r {
        Request::Connect { client_id, clean_session } => connect_bytes(
            new_connect_view(client_id@, clean_session),
        ),
        Request::Publish { packet_id, qos, topic, payload } => publish_bytes(
            PublishView { packet_id, qos, topic: topic@, payload: payload@ },
        ),
        Request::Puback { packet_id } => u16_be(packet_id),
        Request::Pubrec { packet_id } => u16_be(packet_id),
        Request::Pubrel { packet_id } => u16_be(packet_id),
        Request::Pubcomp { packet_id } => u16_be(packet_id),
        Request::Subscribe { packet_id, subscription_topics } => subscribe_bytes(
            packet_id,
            topics_view(subscription_topics@),
        ),
        Request::Disconnect => Seq::<u8>::empty(),
    }
}

/// Why `r` cannot be written, if it cannot: a PUBLISH QoS above 2 is
/// malformed; a string too long for its field, or a body too long for the
/// remaining-length field, is too long.
pub open spec fn request_error(r: Request) -> Option<TransportError> {
    if r matches Request::Publish { qos, .. } && qos > 2 {
        Some(TransportError::MalformedPacket)
    } else if r matches Request::Connect { client_id, .. } && !fits_string_field(client_id@) {
        Some(TransportError::PayloadTooLong)
    } else if r matches Request::Publish { topic, .. } && !fits_string_field(topic@) {
        Some(TransportError::PayloadTooLong)
    } else if r matches Request::Subscribe { subscription_topics, .. } && !subscriptions_encodable(
        topics_view(subscription_topics@),
    ) {
        Some(TransportError::PayloadTooLong)
    } else if request_body(r).len() > MAX_PAYLOAD_SIZE {
        Some(TransportError::PayloadTooLong)
    } else {
        None
    }
}

/// The bytes of `r` on the wire: control byte, remaining length, body.
pub open spec fn request_bytes(r: Request) -> Seq<u8> {
    seq![request_code(r)] + varint(request_body(r).len()) + request_body(r)
}

/// `byte` with its QoS bits (1 and 2) set to `qos`.
pub open spec fn with_qos(byte: u8, qos: Qos) -> u8 {
    (byte & 0xF9) | (qos_code(qos) << 1)
}

/// Sets the QoS bits of a control byte.
pub fn encode_qos(byte: u8, qos: Qos) -> (r: u8)
    ensures
        r == with_qos(byte, qos),
{
    let mask1: u8 = 1 << 1;
    let mask2: u8 = 1 << 2;
    assert(mask1 == 2 && mask2 == 4) by (bit_vector)
        requires
            mask1 == 1u8 << 1,
            mask2 == 1u8 << 2,
    ;
    match qos {
        Qos::AtMostOnce => {
            assert((byte & !2u8) & !4u8 == (byte & 0xF9) | (0u8 << 1)) by (bit_vector);
            (byte & !mask1) & !mask2
        },
        Qos::AtLeastOnce => {
            assert((byte & !4u8) | 2u8 == (byte & 0xF9) | (1u8 << 1)) by (bit_vector);
            (byte & !mask2) | mask1
        },
        Qos::ExactlyOnce => {
            assert((byte & !2u8) | 4u8 == (byte & 0xF9) | (2u8 << 1)) by (bit_vector);
            (byte & !mask1) | mask2
        },
    }
}

/// Concatenating two runs of subscriptions concatenates their bytes.
proof fn lemma_subscriptions_bytes_append(a: Seq<SubscriptionView>, b: Seq<SubscriptionView>)
    ensures
        subscriptions_bytes(a + b) == subscriptions_bytes(a) + subscriptions_bytes(b),
    decreases b.len(),
{
    if b.len() == 0 {
        assert(a + b =~= a);
        assert(subscriptions_bytes(a) + subscriptions_bytes(b) =~= subscriptions_bytes(a));
    } else {
        let b0 = b.drop_last();
        assert(a + b =~= (a + b0).push(b.last()));
        assert(b =~= b0.push(b.last()));
        lemma_subscriptions_bytes_append(a, b0);
        lemma_subscriptions_bytes_push(a + b0, b.last());
        lemma_subscriptions_bytes_push(b0, b.last());
        assert(subscriptions_bytes(a + b) =~= subscriptions_bytes(a) + subscriptions_bytes(b));
    }
}

/// The length of the body of a SUBSCRIBE, or `None` where a topic does not
/// fit in a string field or the body would be longer than
/// `MAX_PAYLOAD_SIZE`.
fn subscribe_body_len(topics: &Vec<SubscriptionTopic>) -> (r: Option<usize>)
    ensures
        r matches Some(n) ==> subscriptions_encodable(topics_view(topics@)) && n == 2
            + subscriptions_bytes(topics_view(topics@)).len() && n <= MAX_PAYLOAD_SIZE,
        r is None ==> !subscriptions_encodable(topics_view(topics@)) || 2 + subscriptions_bytes(
            topics_view(topics@),
        ).len() > MAX_PAYLOAD_SIZE,
{
    let ghost ts = topics_view(topics@);
    let mut total: usize = 2;
    let mut i: usize = 0;
    while i < topics.len()
        invariant
            i <= topics@.len(),
            ts == topics_view(topics@),
            subscriptions_encodable(ts.subrange(0, i as int)),
            total == 2 + subscriptions_bytes(ts.subrange(0, i as int)).len(),
            total <= MAX_PAYLOAD_SIZE,
        decreases topics@.len() - i,
    {
        let len = topics[i].topic.as_str().as_bytes().len();
        assert(ts[i as int] == topics@[i as int]@);
        proof {
            assert(ts.subrange(0, i + 1) =~= ts.subrange(0, i as int).push(ts[i as int]));
            lemma_subscriptions_bytes_push(ts.subrange(0, i as int), ts[i as int]);
        }
        assert(subscription_bytes(ts[i as int]).len() == len + 3);
        if len > 65535 {
            assert(!fits_string_field(ts[i as int].topic));
            return None;
        }
        assert(fits_string_field(ts[i as int].topic));
        if len + 3 > MAX_PAYLOAD_SIZE - total {
            proof {
                lemma_subscriptions_bytes_append(
                    ts.subrange(0, i + 1),
                    ts.subrange(i + 1, ts.len() as int),
                );
                assert(ts =~= ts.subrange(0, i + 1) + ts.subrange(i + 1, ts.len() as int));
            }
            return None;
        }
        total = total + len + 3;
        i = i + 1;
        assert(subscriptions_encodable(ts.subrange(0, i as int))) by {
            assert forall|k: int| 0 <= k < i implies fits_string_field(
                #[trigger] ts.subrange(0, i as int)[k].topic,
            ) by {
                if k < i - 1 {
                    assert(ts.subrange(0, i as int)[k] == ts.subrange(0, i - 1)[k]);
                } else {
                    assert(ts.subrange(0, i as int)[k] == ts[i - 1]);
                }
            }
        }
    }
    assert(ts.subrange(0, i as int) =~= ts);
    Some(total)
}

impl Request {
    /// The control byte of this request.
    fn control_byte(&self) -> (r: u8)
        requires
            self matches Request::Publish { qos, .. } ==> qos <= 2,
        ensures
            r == request_code(*self),
    {
        match self {
            Request::Connect { .. } => 0x10,
            Request::Publish { qos, .. } => {
                let q = if *qos == 0 {
                    Qos::AtMostOnce
                } else if *qos == 1 {
                    Qos::AtLeastOnce
                } else {
                    Qos::ExactlyOnce
                };
                let b = encode_qos(0x30, q);
                assert(with_qos(0x30, Qos::AtMostOnce) == 0x30) by (bit_vector);
                assert(with_qos(0x30, Qos::AtLeastOnce) == 0x32) by (bit_vector);
                assert(with_qos(0x30, Qos::ExactlyOnce) == 0x34) by (bit_vector);
                b
            },
            Request::Puback { .. } => 0x40,
            Request::Pubrec { .. } => 0x50,
            Request::Pubrel { .. } => 0x62,
            Request::Pubcomp { .. } => 0x70,
            Request::Subscribe { .. } => 0x80,
            Request::Disconnect => 0xE0,
        }
    }
}

impl Serialize for Request {
    /// Computes the body length first, refusing the request before writing
    /// anything if it cannot be encoded; then writes the fixed header and
    /// the body.
    fn serialize(&self, buf: &mut Vec<u8>) -> (r: Result<usize, TransportError>)
        ensures
            request_error(*self) is None ==> r == Ok::<usize, TransportError>(
                request_bytes(*self).len() as usize,
            ) && final(buf)@ == old(buf)@ + request_bytes(*self),
            request_error(*self) matches Some(e) ==> r == Err::<usize, TransportError>(e)
                && final(buf)@ == old(buf)@,
    {
        let len: usize = match self {
            Request::Connect { client_id, .. } => {
                let n = client_id.as_str().as_bytes().len();
                if n > 65535 {
                    return Err(TransportError::PayloadTooLong);
                }
                assert(request_body(*self).len() == 10 + 2 + n);
                10 + 2 + n
            },
            Request::Publish { qos, topic, payload, .. } => {
                if *qos > 2 {
                    return Err(TransportError::MalformedPacket);
                }
                let n = topic.as_str().as_bytes().len();
                if n > 65535 {
                    return Err(TransportError::PayloadTooLong);
                }
                if payload.len() > MAX_PAYLOAD_SIZE {
                    return Err(TransportError::PayloadTooLong);
                }
                let extra: usize = if *qos > 0 {
                    2
                } else {
                    0
                };
                assert(request_body(*self).len() == 2 + n + extra + payload@.len());
                2 + n + extra + payload.len()
            },
            Request::Puback { .. } => 2,
            Request::Pubrec { .. } => 2,
            Request::Pubrel { .. } => 2,
            Request::Pubcomp { .. } => 2,
            Request::Subscribe { subscription_topics, .. } => {
                match subscribe_body_len(subscription_topics) {
                    Some(n) => n,
                    None => {
                        return Err(TransportError::PayloadTooLong);
                    },
                }
            },
            Request::Disconnect => 0,
        };
        assert(len == request_body(*self).len());
        if len > MAX_PAYLOAD_SIZE {
            return Err(TransportError::PayloadTooLong);
        }
        let start = buf.len();
        buf.push(self.control_byte());
        let _ = write_remaining_length(buf, len);
        match self {
            Request::Connect { client_id, clean_session } => {
                let connect = ConnectPacket::new(client_id.clone(), *clean_session);
                connect.write(buf);
            },
            Request::Publish { packet_id, qos, topic, payload } => {
                let publish = PublishPacket::new(
                    *packet_id,
                    topic.clone(),
                    slice_to_vec(payload.as_slice()),
                    *qos,
                );
                publish.write(buf);
            },
            Request::Puback { packet_id } => {
                let puback = PubackPacket { packet_id: *packet_id };
                puback.write(buf);
            },
            Request::Pubrec { packet_id } => {
                let pubrec = PubrecPacket { packet_id: *packet_id };
                pubrec.write(buf);
            },
            Request::Pubrel { packet_id } => {
                let pubrel = PubrelPacket { packet_id: *packet_id };
                pubrel.write(buf);
            },
            Request::Pubcomp { packet_id } => {
                let pubcomp = PubcompPacket { packet_id: *packet_id };
                pubcomp.write(buf);
            },
            Request::Subscribe { packet_id, subscription_topics } => {
                write_subscribe_body(buf, *packet_id, subscription_topics);
            },
            Request::Disconnect => {},
        }
        assert(final(buf)@ =~= old(buf)@ + request_bytes(*self));
        Ok(buf.len() - start)
    }
}

/// A packet received.
#[derive(Debug, PartialEq, Eq)]
pub enum Response {
    Connack { session_present: bool, return_code: u8 },
    Publish { packet_id: u16, qos: u8, topic: String, payload: Vec<u8> },
    Puback { packet_id: u16 },
    Pubrec { packet_id: u16 },
    Pubrel { packet_id: u16 },
    Pubcomp { packet_id: u16 },
    Unknown,
}

/// What a `Response` holds, as plain values.
pub enum ResponseView {
    Connack { session_present: bool, return_code: u8 },
    Publish(PublishView),
    Puback { packet_id: u16 },
    Pubrec { packet_id: u16 },
    Pubrel { packet_id: u16 },
    Pubcomp { packet_id: u16 },
    Unknown,
}

impl View for Response {
    type V = ResponseView;

    open spec fn view(&self) -> ResponseView {
        match *self {
            Response::Connack { session_present, return_code } => ResponseView::Connack {
                session_present,
                return_code,
            },
            Response::Publish { packet_id, qos, topic, payload } => ResponseView::Publish(
                PublishView { packet_id, qos, topic: topic@, payload: payload@ },
            ),
            Response::Puback { packet_id } => ResponseView::Puback { packet_id },
            Response::Pubrec { packet_id } => ResponseView::Pubrec { packet_id },
            Response::Pubrel { packet_id } => ResponseView::Pubrel { packet_id },
            Response::Pubcomp { packet_id } => ResponseView::Pubcomp { packet_id },
            Response::Unknown => ResponseView::Unknown,
        }
    }
}

/// Decodes the body of a packet of type `t`, read under fixed header `h`.
pub open spec fn parse_body(t: PacketType, body: Seq<u8>, h: FixedHeader) -> Result<
    ResponseView,
    TransportError,
> {
    match t {
        PacketType::Connack => match parse_connack(body) {
            Ok(c) => Ok(
                ResponseView::Connack {
                    session_present: c.session_present,
                    return_code: return_code_byte(c.return_code),
                },
            ),
            Err(e) => Err(e),
        },
        PacketType::Publish => match parse_publish(body, h) {
            Ok(p) => Ok(ResponseView::Publish(p)),
            Err(e) => Err(e),
        },
        PacketType::Puback => match parse_packet_id(body) {
            Ok(id) => Ok(ResponseView::Puback { packet_id: id }),
            Err(e) => Err(e),
        },
        PacketType::Pubrec => match parse_packet_id(body) {
            Ok(id) => Ok(ResponseView::Pubrec { packet_id: id }),
            Err(e) => Err(e),
        },
        PacketType::Pubrel => match parse_packet_id(body) {
            Ok(id) => Ok(ResponseView::Pubrel { packet_id: id }),
            Err(e) => Err(e),
        },
        PacketType::Pubcomp => match parse_packet_id(body) {
            Ok(id) => Ok(ResponseView::Pubcomp { packet_id: id }),
            Err(e) => Err(e),
        },
        _ => Ok(ResponseView::Unknown),
    }
}

/// Decodes the packet at the start of `s`: the response and the number of
/// bytes the whole packet takes, fixed header and body. The body is exactly
/// the remaining length; a type this library does not read is `Unknown`,
/// its body skipped.
pub open spec fn parse_response(s: Seq<u8>) -> Result<(ResponseView, nat), TransportError> {
    match parse_fixed_header(s) {
        Err(e) => Err(e),
        Ok((h, n)) => {
            let total: nat = n + h.remaining_length as nat;
            if s.len() < total {
                Err(TransportError::InsufficientBytes((total - s.len()) as usize))
            } else {
                match parse_body(h.packet_type, s.subrange(n as int, total as int), h) {
                    Ok(v) => Ok((v, total)),
                    Err(e) => Err(e),
                }
            }
        },
    }
}

impl Deserialize for Response {
    type Output = Response;

    /// Reads the fixed header, then the body it bounds, chosen by its
    /// packet type.
    fn deserialize(buf: &[u8]) -> (r: Result<(Response, usize), TransportError>)
        ensures
            r is Ok <==> parse_response(buf@) is Ok,
            r matches Ok((v, n)) ==> parse_response(buf@) == Ok::<(ResponseView, nat), TransportError>(
                (v@, n as nat),
            ),
            r matches Err(e) ==> parse_response(buf@) == Err::<(ResponseView, nat), TransportError>(
                e,
            ),
    {
        let (fixed_header, n) = FixedHeader::from_bytes(buf)?;
        let len = fixed_header.remaining_length() as usize;
        if buf.len() - n < len {
            return Err(TransportError::InsufficientBytes(n + len - buf.len()));
        }
        let body = slice_subrange(buf, n, n + len);
        let packet = match fixed_header.packet_type {
            PacketType::Connack => {
                let connack = ConnackPacket::from_bytes(body)?;
                Response::Connack {
                    session_present: connack.session_present,
                    return_code: connack.return_code.to_byte(),
                }
            },
            PacketType::Publish => {
                let publish = PublishPacket::from_bytes(body, &fixed_header)?;
                Response::Publish {
                    packet_id: publish.packet_id,
                    qos: publish.qos,
                    topic: publish.topic,
                    payload: publish.payload,
                }
            },
            PacketType::Puback => {
                let puback = PubackPacket::from_bytes(body)?;
                Response::Puback { packet_id: puback.packet_id }
            },
            PacketType::Pubrec => {
                let pubrec = PubrecPacket::from_bytes(body)?;
                Response::Pubrec { packet_id: pubrec.packet_id }
            },
            PacketType::Pubrel => {
                let pubrel = PubrelPacket::from_bytes(body)?;
                Response::Pubrel { packet_id: pubrel.packet_id }
            },
            PacketType::Pubcomp => {
                let pubcomp = PubcompPacket::from_bytes(body)?;
                Response::Pubcomp { packet_id: pubcomp.packet_id }
            },
            _ => Response::Unknown,
        };
        Ok((packet, n + len))
    }
}

/// The response that decoding the bytes of `r` gives: the same packet for
/// PUBLISH and the acknowledgments, `Unknown` for the types that are only
/// ever sent.
pub open spec fn response_to(r: Request) -> ResponseView {
    match r {
        Request::Publish { packet_id, qos, topic, payload } => ResponseView::Publish(
            PublishView { packet_id, qos, topic: topic@, payload: payload@ },
        ),
        Request::Puback { packet_id } => ResponseView::Puback { packet_id },
        Request::Pubrec { packet_id } => ResponseView::Pubrec { packet_id },
        Request::Pubrel { packet_id } => ResponseView::Pubrel { packet_id },
        Request::Pubcomp { packet_id } => ResponseView::Pubcomp { packet_id },
        _ => ResponseView::Unknown,
    }
}

/// A packet framed as control byte, remaining length and body decodes to the
/// header those give, and its body is found where it was put.
proof fn lemma_framed(code: u8, body: Seq<u8>, rest: Seq<u8>)
    requires
        body.len() <= MAX_PAYLOAD_SIZE,
    ensures
        ({
            let s = seq![code] + varint(body.len()) + body + rest;
            let n = 1 + varint(body.len()).len();
            &&& parse_fixed_header(s) == Ok::<(FixedHeader, nat), TransportError>(
                (header_of(code, body.len() as u32), n),
            )
            &&& s.len() >= n + body.len()
            &&& s.subrange(n as int, (n + body.len()) as int) == body
        }),
{
    let len = body.len();
    let s = seq![code] + varint(len) + body + rest;
    lemma_varint_len(len);
    lemma_varint_round_trip(len, body + rest);
    assert(s.subrange(1, s.len() as int) =~= varint(len) + (body + rest));
    let n = 1 + varint(len).len();
    assert(s.subrange(n as int, (n + len) as int) =~= body);
}

/// Decoding the bytes that `serialize` writes for a request gives the
/// matching response, and takes exactly those bytes, whatever follows. At
/// QoS 0 a PUBLISH carries no packet id, so this holds for one whose packet
/// id is 0.
pub proof fn lemma_request_response_round_trip(r: Request, rest: Seq<u8>)
    requires
        request_error(r) is None,
        r matches Request::Publish { packet_id, qos, .. } ==> (qos == 0 ==> packet_id == 0),
    ensures
        parse_response(request_bytes(r) + rest) == Ok::<(ResponseView, nat), TransportError>(
            (response_to(r), request_bytes(r).len()),
        ),
{
    let body = request_body(r);
    let code = request_code(r);
    lemma_framed(code, body, rest);
    lemma_varint_len(body.len());
    let s = request_bytes(r) + rest;
    assert(s =~= seq![code] + varint(body.len()) + body + rest);
    let h = header_of(code, body.len() as u32);
    assert(h.remaining_length == body.len());
    match r {
        Request::Connect { .. } => {
            assert(0x10u8 >> 4 == 1) by (bit_vector);
        },
        Request::Publish { packet_id, qos, topic, payload } => {
            let p = PublishView { packet_id, qos, topic: topic@, payload: payload@ };
            if qos == 0 {
                assert(0x30u8 >> 4 == 3 && (0x30u8 >> 1) & 3 == 0) by (bit_vector);
            } else if qos == 1 {
                assert(0x32u8 >> 4 == 3 && (0x32u8 >> 1) & 3 == 1) by (bit_vector);
            } else {
                assert(0x34u8 >> 4 == 3 && (0x34u8 >> 1) & 3 == 2) by (bit_vector);
            }
            assert(h.packet_type == PacketType::Publish);
            assert(h.flags.qos == qos);
            lemma_publish_round_trip(p, h, Seq::<u8>::empty());
            assert(body + Seq::<u8>::empty() =~= body);
        },
        Request::Puback { packet_id } => {
            assert(0x40u8 >> 4 == 4) by (bit_vector);
            lemma_packet_id_round_trip(packet_id, Seq::<u8>::empty());
            assert(body + Seq::<u8>::empty() =~= body);
        },
        Request::Pubrec { packet_id } => {
            assert(0x50u8 >> 4 == 5) by (bit_vector);
            lemma_packet_id_round_trip(packet_id, Seq::<u8>::empty());
            assert(body + Seq::<u8>::empty() =~= body);
        },
        Request::Pubrel { packet_id } => {
            assert(0x62u8 >> 4 == 6) by (bit_vector);
            lemma_packet_id_round_trip(packet_id, Seq::<u8>::empty());
            assert(body + Seq::<u8>::empty() =~= body);
        },
        Request::Pubcomp { packet_id } => {
            assert(0x70u8 >> 4 == 7) by (bit_vector);
            lemma_packet_id_round_trip(packet_id, Seq::<u8>::empty());
            assert(body + Seq::<u8>::empty() =~= body);
        },
        Request::Subscribe { .. } => {
            assert(0x80u8 >> 4 == 8) by (bit_vector);
        },
        Request::Disconnect => {
            assert(0xE0u8 >> 4 == 14) by (bit_vector);
        },
    }
}

/// The first byte that `serialize` writes for a request it accepts is its
/// control byte: `0x10` for CONNECT, `0x30` with the QoS in bits 1 and 2 for
/// PUBLISH, and `0x62` for every PUBREL, whatever its packet id.
pub proof fn lemma_request_control_byte(r: Request)
    requires
        request_error(r) is None,
    ensures
        request_bytes(r)[0] == request_code(r),
        r is Connect ==> request_bytes(r)[0] == 0x10,
        r matches Request::Publish { qos, .. } ==> request_bytes(r)[0] == 0x30 | (qos << 1u8),
        r is Pubrel ==> request_bytes(r)[0] == 0x62,
{
    if let Request::Publish { qos, .. } = r {
        if qos == 0 {
            assert(0x30u8 | (0u8 << 1u8) == 0x30) by (bit_vector);
        } else if qos == 1 {
            assert(0x30u8 | (1u8 << 1u8) == 0x32) by (bit_vector);
        } else {
            assert(0x30u8 | (2u8 << 1u8) == 0x34) by (bit_vector);
        }
    }
}

/// A packet whose type nibble this library does not know decodes to
/// `Unknown` without an error, and its whole body, as long as the remaining
/// length says, is taken with it.
pub proof fn lemma_unknown_type_skipped(s: Seq<u8>)
    requires
        s.len() >= 1,
        packet_type_of(s[0] >> 4) == PacketType::Unknown,
        parse_fixed_header(s) is Ok,
        s.len() >= parse_fixed_header(s)->Ok_0.1 + parse_fixed_header(s)->Ok_0.0.remaining_length,
    ensures
        parse_response(s) == Ok::<(ResponseView, nat), TransportError>(
            (
                ResponseView::Unknown,
                parse_fixed_header(s)->Ok_0.1 + parse_fixed_header(s)->Ok_0.0.remaining_length as nat,
            ),
        ),
{
}

/// The acknowledgment request of each kind, with its packet id.
pub open spec fn ack_request(ack: AckType) -> Request {
    match ack {
        AckType::Puback(id) => Request::Puback { packet_id: id },
        AckType::Pubrec(id) => Request::Pubrec { packet_id: id },
        AckType::Pubrel(id) => Request::Pubrel { packet_id: id },
        AckType::Pubcomp(id) => Request::Pubcomp { packet_id: id },
    }
}

impl From<AckType> for Request {
    fn from(ack_type: AckType) -> (r: Request)
        ensures
            r == ack_request(ack_type),
    {
        match ack_type {
            AckType::Puback(pkt_id) => Request::Puback { packet_id: pkt_id },
            AckType::Pubrec(pkt_id) => Request::Pubrec { packet_id: pkt_id },
            AckType::Pubrel(pkt_id) => Request::Pubrel { packet_id: pkt_id },
            AckType::Pubcomp(pkt_id) => Request::Pubcomp { packet_id: pkt_id },
        }
    }
}

impl vstd::std_specs::convert::FromSpecImpl<AckType> for Request {
    open spec fn obeys_from_spec() -> bool {
        true
    }

    open spec fn from_spec(ack_type: AckType) -> Request {
        ack_request(ack_type)
    }
}

} // verus!
