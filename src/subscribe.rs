//! SUBSCRIBE: a packet id, then (topic, requested QoS) pairs up to the end
//! of the packet, with no count of their own.
use crate::header::{qos_code, Qos};
use crate::protocol::{
    be_u16, fits_string_field, lemma_string_round_trip, parse_string, read_string, read_u16,
    string_field, u16_be, write_string, write_u16, TransportError,
};
use vstd::slice::slice_subrange;
use vstd::prelude::*;

verus! {

#[derive(Debug, Clone, PartialEq, Eq)]
pub struct SubscriptionTopic {
    pub qos: Qos,
    pub topic: String,
}

/// What a `SubscriptionTopic` holds, as plain values.
pub struct SubscriptionView {
    pub qos: Qos,
    pub topic: Seq<char>,
}

impl View for SubscriptionTopic {
    type V = SubscriptionView;

    open spec fn view(&self) -> SubscriptionView {
        SubscriptionView { qos: self.qos, topic: self.topic@ }
    }
}

/// The subscriptions of `ts` as plain values, in order.
pub open spec fn topics_view(ts: Seq<SubscriptionTopic>) -> Seq<SubscriptionView> {
    ts.map_values(|t: SubscriptionTopic| t@)
}

/// Whether every topic of `ts` fits in a string field.
pub open spec fn subscriptions_encodable(ts: Seq<SubscriptionView>) -> bool {
    forall|i: int| 0 <= i < ts.len() ==> fits_string_field(#[trigger] ts[i].topic)
}

/// One subscription on the wire: its topic, then its QoS byte.
pub open spec fn subscription_bytes(t: SubscriptionView) -> Seq<u8> {
    string_field(t.topic) + seq![qos_code(t.qos)]
}

/// The subscriptions of `ts` on the wire, one after another.
pub open spec fn subscriptions_bytes(ts: Seq<SubscriptionView>) -> Seq<u8>
    decreases ts.len(),
{
    if ts.len() == 0 {
        Seq::<u8>::empty()
    } else {
        subscription_bytes(ts[0]) + subscriptions_bytes(ts.drop_first())
    }
}

/// Adding a subscription at the end adds its bytes at the end.
pub proof fn lemma_subscriptions_bytes_push(ts: Seq<SubscriptionView>, t: SubscriptionView)
    ensures
        subscriptions_bytes(ts.push(t)) == subscriptions_bytes(ts) + subscription_bytes(t),
    decreases ts.len(),
{
    if ts.len() == 0 {
        assert(ts.push(t).drop_first() =~= ts);
        assert(ts.push(t)[0] == t);
        assert(subscriptions_bytes(ts) == Seq::<u8>::empty());
        assert(subscriptions_bytes(ts.push(t)) =~= subscription_bytes(t));
    } else {
        assert(ts.push(t).drop_first() =~= ts.drop_first().push(t));
        lemma_subscriptions_bytes_push(ts.drop_first(), t);
        assert(subscriptions_bytes(ts.push(t)) =~= subscriptions_bytes(ts) + subscription_bytes(t));
    }
}

/// The body of a SUBSCRIBE: the packet id, then each subscription.
pub open spec fn subscribe_bytes(packet_id: u16, ts: Seq<SubscriptionView>) -> Seq<u8> {
    u16_be(packet_id) + subscriptions_bytes(ts)
}

#[derive(Debug, PartialEq, Eq)]
pub struct SubscribePacket {
    pub packet_id: u16,
    pub subscription_topics: Vec<SubscriptionTopic>,
}

impl SubscribePacket {
    pub fn new(packet_id: u16, subscription_topics: Vec<SubscriptionTopic>) -> (r: Self)
        ensures
            r.packet_id == packet_id,
            r.subscription_topics@ == subscription_topics@,
    {
        Self { packet_id, subscription_topics }
    }

    /// Appends the body of this SUBSCRIBE and returns its length.
    pub fn write(&self, buf: &mut Vec<u8>) -> (r: usize)
        requires
            subscriptions_encodable(topics_view(self.subscription_topics@)),
        ensures
            final(buf)@ == old(buf)@ + subscribe_bytes(
                self.packet_id,
                topics_view(self.subscription_topics@),
            ),
            r == subscribe_bytes(self.packet_id, topics_view(self.subscription_topics@)).len(),
    {
        let start = buf.len();
        write_subscribe_body(buf, self.packet_id, &self.subscription_topics);
        buf.len() - start
    }
}

/// Appends the body of a SUBSCRIBE with the given packet id and
/// subscriptions.
pub(crate) fn write_subscribe_body(
    buf: &mut Vec<u8>,
    packet_id: u16,
    subscription_topics: &Vec<SubscriptionTopic>,
)
    requires
        subscriptions_encodable(topics_view(subscription_topics@)),
    ensures
        final(buf)@ == old(buf)@ + subscribe_bytes(packet_id, topics_view(subscription_topics@)),
{
    let ghost ts = topics_view(subscription_topics@);
    write_u16(buf, packet_id);
    let mut i: usize = 0;
    while i < subscription_topics.len()
        invariant
            i <= subscription_topics@.len(),
            ts == topics_view(subscription_topics@),
            subscriptions_encodable(ts),
            buf@ == old(buf)@ + u16_be(packet_id) + subscriptions_bytes(ts.subrange(0, i as int)),
        decreases subscription_topics@.len() - i,
    {
        let s = &subscription_topics[i];
        assert(ts[i as int] == s@);
        assert(fits_string_field(ts[i as int].topic));
        write_string(buf, s.topic.as_str());
        buf.push(u8::from(&s.qos));
        proof {
            assert(ts.subrange(0, i + 1) =~= ts.subrange(0, i as int).push(ts[i as int]));
            lemma_subscriptions_bytes_push(ts.subrange(0, i as int), ts[i as int]);
        }
        i = i + 1;
        assert(buf@ =~= old(buf)@ + u16_be(packet_id) + subscriptions_bytes(
            ts.subrange(0, i as int),
        ));
    }
    assert(ts.subrange(0, i as int) =~= ts);
}

/// The QoS that byte `b` (0 to 2) stands for.
pub open spec fn qos_of(b: u8) -> Qos {
    if b == 0 {
        Qos::AtMostOnce
    } else if b == 1 {
        Qos::AtLeastOnce
    } else {
        Qos::ExactlyOnce
    }
}

/// Decodes the subscriptions that fill `s`: (topic, QoS byte) pairs up to
/// its end, each QoS 0 to 2.
pub open spec fn parse_subscriptions(s: Seq<u8>) -> Result<Seq<SubscriptionView>, TransportError>
    decreases s.len(),
{
    if s.len() == 0 {
        Ok(Seq::<SubscriptionView>::empty())
    } else {
        match parse_string(s) {
            Err(e) => Err(e),
            Ok((topic, n)) => if n >= s.len() || s[n as int] > 2 {
                Err(TransportError::MalformedPacket)
            } else {
                match parse_subscriptions(s.subrange(n + 1int, s.len() as int)) {
                    Ok(rest) => Ok(
                        seq![SubscriptionView { qos: qos_of(s[n as int]), topic }] + rest,
                    ),
                    Err(e) => Err(e),
                }
            },
        }
    }
}

/// Decodes the body of a SUBSCRIBE held whole in `s`: the packet id and the
/// subscriptions.
pub open spec fn parse_subscribe(s: Seq<u8>) -> Result<(u16, Seq<SubscriptionView>), TransportError> {
    if s.len() < 2 {
        Err(TransportError::MalformedPacket)
    } else {
        match parse_subscriptions(s.subrange(2, s.len() as int)) {
            Ok(ts) => Ok((be_u16(s[0], s[1]), ts)),
            Err(e) => Err(e),
        }
    }
}

/// `acc` followed by what `r` decoded, or the error of `r`.
pub open spec fn after(acc: Seq<SubscriptionView>, r: Result<Seq<SubscriptionView>, TransportError>) -> Result<
    Seq<SubscriptionView>,
    TransportError,
> {
    match r {
        Ok(rest) => Ok(acc + rest),
        Err(e) => Err(e),
    }
}

impl SubscribePacket {
    /// Reads the body of a SUBSCRIBE, which `bytes` holds whole.
    pub fn from_bytes(bytes: &[u8]) -> (r: Result<SubscribePacket, TransportError>)
        ensures
            r is Ok <==> parse_subscribe(bytes@) is Ok,
            r matches Ok(p) ==> parse_subscribe(bytes@) == Ok::<
                (u16, Seq<SubscriptionView>),
                TransportError,
            >((p.packet_id, topics_view(p.subscription_topics@))),
            r matches Err(e) ==> parse_subscribe(bytes@) == Err::<
                (u16, Seq<SubscriptionView>),
                TransportError,
            >(e),
    {
        let len = bytes.len();
        if len < 2 {
            return Err(TransportError::MalformedPacket);
        }
        let packet_id = read_u16(bytes);
        let ghost whole = bytes@.subrange(2, len as int);
        let mut subscription_topics: Vec<SubscriptionTopic> = Vec::new();
        let mut pos: usize = 2;
        while pos < len
            invariant
                2 <= pos <= len,
                len == bytes@.len(),
                whole == bytes@.subrange(2, len as int),
                parse_subscriptions(whole) == after(
                    topics_view(subscription_topics@),
                    parse_subscriptions(bytes@.subrange(pos as int, len as int)),
                ),
            decreases len - pos,
        {
            let ghost cur = bytes@.subrange(pos as int, len as int);
            let ghost acc = topics_view(subscription_topics@);
            let rest = slice_subrange(bytes, pos, len);
            let (topic, n) = match read_string(rest) {
                Ok(v) => v,
                Err(e) => {
                    return Err(e);
                },
            };
            if n >= rest.len() {
                return Err(TransportError::MalformedPacket);
            }
            let q = match Qos::from_u8(rest[n]) {
                Some(q) => q,
                None => {
                    return Err(TransportError::MalformedPacket);
                },
            };
            let ghost entry = SubscriptionView { qos: q, topic: topic@ };
            proof {
                assert(qos_of(cur[n as int]) == q);
                assert(cur.subrange(n + 1, cur.len() as int) =~= bytes@.subrange(
                    (pos + n + 1) as int,
                    len as int,
                ));
            }
            subscription_topics.push(SubscriptionTopic { qos: q, topic });
            pos = pos + n + 1;
            proof {
                assert(topics_view(subscription_topics@) =~= acc.push(entry));
                match parse_subscriptions(bytes@.subrange(pos as int, len as int)) {
                    Ok(more) => {
                        assert(acc + (seq![entry] + more) =~= acc.push(entry) + more);
                    },
                    Err(e) => {},
                }
            }
        }
        proof {
            assert(bytes@.subrange(pos as int, len as int) =~= Seq::<u8>::empty());
            assert(topics_view(subscription_topics@) + Seq::<SubscriptionView>::empty()
                =~= topics_view(subscription_topics@));
        }
        Ok(SubscribePacket { packet_id, subscription_topics })
    }
}

/// Decoding the bytes of encodable subscriptions gives them back.
pub proof fn lemma_subscriptions_round_trip(ts: Seq<SubscriptionView>)
    requires
        subscriptions_encodable(ts),
    ensures
        parse_subscriptions(subscriptions_bytes(ts)) == Ok::<Seq<SubscriptionView>, TransportError>(
            ts,
        ),
    decreases ts.len(),
{
    if ts.len() > 0 {
        let t = ts[0];
        let rest = ts.drop_first();
        let q = qos_code(t.qos);
        let tail = subscriptions_bytes(rest);
        let s = subscriptions_bytes(ts);
        assert(fits_string_field(t.topic));
        assert(s =~= string_field(t.topic) + (seq![q] + tail));
        lemma_string_round_trip(t.topic, seq![q] + tail);
        let n = string_field(t.topic).len() as int;
        assert(s[n] == q);
        assert(s.subrange(n + 1, s.len() as int) =~= tail);
        assert(subscriptions_encodable(rest)) by {
            assert forall|i: int| 0 <= i < rest.len() implies fits_string_field(
                #[trigger] rest[i].topic,
            ) by {
                assert(rest[i] == ts[i + 1]);
            }
        }
        lemma_subscriptions_round_trip(rest);
        assert(qos_of(q) == t.qos);
        assert(seq![t] + rest =~= ts);
    } else {
        assert(subscriptions_bytes(ts) =~= Seq::<u8>::empty());
        assert(ts =~= Seq::<SubscriptionView>::empty());
    }
}

/// Decoding the body of a SUBSCRIBE gives its packet id and subscriptions
/// back, in order.
pub proof fn lemma_subscribe_round_trip(packet_id: u16, ts: Seq<SubscriptionView>)
    requires
        subscriptions_encodable(ts),
    ensures
        parse_subscribe(subscribe_bytes(packet_id, ts)) == Ok::<
            (u16, Seq<SubscriptionView>),
            TransportError,
        >((packet_id, ts)),
{
    let s = subscribe_bytes(packet_id, ts);
    assert(s.subrange(2, s.len() as int) =~= subscriptions_bytes(ts));
    assert(s[0] == u16_be(packet_id)[0]);
    assert(s[1] == u16_be(packet_id)[1]);
    lemma_subscriptions_round_trip(ts);
}

} // verus!
