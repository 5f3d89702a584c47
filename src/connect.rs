//! CONNECT: the protocol name and level, the connect flags, the keep-alive,
//! then the client id and, as the flags say, the will topic and message,
//! the user name and the password.
use crate::protocol::{
    be_u16, fits_string_field, lemma_string_round_trip, parse_string, read_string, read_u16,
    string_field, u16_be, write_string, write_u16, TransportError,
};
use vstd::slice::slice_subrange;
use vstd::prelude::*;

verus! {

/// The protocol level of MQTT v3.1.1.
pub const MQTT_V4: u8 = 0x04;

/// The keep-alive, in seconds, of a CONNECT made by `ConnectPacket::new`.
pub const DEFAULT_KEEPALIVE: u16 = 60;

#[derive(Debug, Clone, Copy, PartialEq, Eq, Structural)]
pub struct ConnectFlags {
    pub clean_session: bool,
    pub will: bool,
    pub will_qos: u8,
    pub will_retain: bool,
    pub password: bool,
    pub username: bool,
}

/// The connect-flags byte: user name in bit 7, password in bit 6, will
/// retain in bit 5, will QoS in bits 3 and 4, will in bit 2, clean session
/// in bit 1.
pub open spec fn connect_flags_byte(f: ConnectFlags) -> u8 {
    ((if f.username {
        0x80int
    } else {
        0
    }) + (if f.password {
        0x40int
    } else {
        0
    }) + (if f.will_retain {
        0x20int
    } else {
        0
    }) + f.will_qos * 8 + (if f.will {
        0x04int
    } else {
        0
    }) + (if f.clean_session {
        0x02int
    } else {
        0
    })) as u8
}

impl ConnectFlags {
    pub fn new(clean_session: bool) -> (r: ConnectFlags)
        ensures
            r == (ConnectFlags {
                clean_session,
                will: false,
                will_qos: 0,
                will_retain: false,
                password: false,
                username: false,
            }),
    {
        ConnectFlags {
            clean_session,
            will: false,
            will_qos: 0,
            will_retain: false,
            password: false,
            username: false,
        }
    }

    /// Appends the connect-flags byte.
    pub fn write(&self, buf: &mut Vec<u8>)
        requires
            self.will_qos <= 2,
        ensures
            final(buf)@ == old(buf)@.push(connect_flags_byte(*self)),
    {
        let mut connect_flags: u8 = 0;
        if self.clean_session {
            connect_flags = connect_flags + 0x02;
        }
        if self.will {
            connect_flags = connect_flags + 0x04;
        }
        connect_flags = connect_flags + self.will_qos * 8;
        if self.will_retain {
            connect_flags = connect_flags + 0x20;
        }
        if self.password {
            connect_flags = connect_flags + 0x40;
        }
        if self.username {
            connect_flags = connect_flags + 0x80;
        }
        buf.push(connect_flags);
    }
}

#[derive(Debug, Clone, Copy, PartialEq, Eq, Structural)]
pub struct ConnectVariableHeader {
    pub flags: ConnectFlags,
    pub keepalive: u16,
}

impl ConnectVariableHeader {
    pub fn new(clean_session: bool, keepalive: u16) -> (r: ConnectVariableHeader)
        ensures
            r.flags == (ConnectFlags {
                clean_session,
                will: false,
                will_qos: 0,
                will_retain: false,
                password: false,
                username: false,
            }),
            r.keepalive == keepalive,
    {
        ConnectVariableHeader { flags: ConnectFlags::new(clean_session), keepalive }
    }

    /// Appends the connect flags and the keep-alive.
    pub fn write(&self, buf: &mut Vec<u8>)
        requires
            self.flags.will_qos <= 2,
        ensures
            final(buf)@ == old(buf)@.push(connect_flags_byte(self.flags)) + u16_be(self.keepalive),
    {
        self.flags.write(buf);
        write_u16(buf, self.keepalive);
    }
}

#[derive(Debug, PartialEq, Eq)]
pub struct ConnectPayload {
    pub client_id: Option<String>,
    pub will_topic: Option<String>,
    pub will_message: Option<String>,
    pub username: Option<String>,
    pub password: Option<String>,
}

/// The characters of an optional string.
pub open spec fn opt_view(o: Option<String>) -> Option<Seq<char>> {
    match o {
        Some(s) => Some(s@),
        None => None,
    }
}

/// An optional string field: the field when present, nothing when absent.
pub open spec fn opt_field(o: Option<Seq<char>>) -> Seq<u8> {
    match o {
        Some(s) => string_field(s),
        None => Seq::<u8>::empty(),
    }
}

/// Whether an optional string is absent or fits in a string field.
pub open spec fn opt_fits(o: Option<Seq<char>>) -> bool {
    match o {
        Some(s) => fits_string_field(s),
        None => true,
    }
}

/// What a CONNECT holds, as plain values.
pub struct ConnectView {
    pub flags: ConnectFlags,
    pub keepalive: u16,
    pub client_id: Option<Seq<char>>,
    pub will_topic: Option<Seq<char>>,
    pub will_message: Option<Seq<char>>,
    pub username: Option<Seq<char>>,
    pub password: Option<Seq<char>>,
}

impl View for ConnectPacket {
    type V = ConnectView;

    open spec fn view(&self) -> ConnectView {
        ConnectView {
            flags: self.variable_header.flags,
            keepalive: self.variable_header.keepalive,
            client_id: opt_view(self.payload.client_id),
            will_topic: opt_view(self.payload.will_topic),
            will_message: opt_view(self.payload.will_message),
            username: opt_view(self.payload.username),
            password: opt_view(self.payload.password),
        }
    }
}

/// The payload fields of `c` on the wire, in their fixed order.
pub open spec fn connect_payload_bytes(c: ConnectView) -> Seq<u8> {
    opt_field(c.client_id) + opt_field(c.will_topic) + opt_field(c.will_message) + opt_field(
        c.username,
    ) + opt_field(c.password)
}

/// The protocol name "MQTT" as a string field.
pub open spec fn protocol_name_bytes() -> Seq<u8> {
    seq![0x00, 0x04, 0x4D, 0x51, 0x54, 0x54]
}

/// The body of a CONNECT.
pub open spec fn connect_bytes(c: ConnectView) -> Seq<u8> {
    protocol_name_bytes() + seq![MQTT_V4, connect_flags_byte(c.flags)] + u16_be(c.keepalive)
        + connect_payload_bytes(c)
}

/// Whether `c` is a well-formed CONNECT: a client id, a will topic and
/// message that are both there or both not, as the will flag says, a user
/// name and password as their flags say, a will QoS of 0 to 2, and every
/// string fitting in a string field.
pub open spec fn connect_wf(c: ConnectView) -> bool {
    &&& c.client_id is Some
    &&& c.will_topic is Some == c.flags.will
    &&& c.will_message is Some == c.flags.will
    &&& c.username is Some == c.flags.username
    &&& c.password is Some == c.flags.password
    &&& c.flags.will_qos <= 2
    &&& opt_fits(c.client_id)
    &&& opt_fits(c.will_topic)
    &&& opt_fits(c.will_message)
    &&& opt_fits(c.username)
    &&& opt_fits(c.password)
}

/// The CONNECT that `ConnectPacket::new` makes.
pub open spec fn new_connect_view(client_id: Seq<char>, clean_session: bool) -> ConnectView {
    ConnectView {
        flags: ConnectFlags {
            clean_session,
            will: false,
            will_qos: 0,
            will_retain: false,
            password: false,
            username: false,
        },
        keepalive: DEFAULT_KEEPALIVE,
        client_id: Some(client_id),
        will_topic: None,
        will_message: None,
        username: None,
        password: None,
    }
}

fn write_opt_string(buf: &mut Vec<u8>, field: &Option<String>)
    requires
        opt_fits(opt_view(*field)),
    ensures
        final(buf)@ == old(buf)@ + opt_field(opt_view(*field)),
{
    if let Some(s) = field {
        write_string(buf, s.as_str());
    } else {
        assert(final(buf)@ =~= old(buf)@ + opt_field(opt_view(*field)));
    }
}

impl ConnectPayload {
    pub fn new(client_id: String) -> (r: ConnectPayload)
        ensures
            opt_view(r.client_id) == Some(client_id@),
            r.will_topic is None,
            r.will_message is None,
            r.username is None,
            r.password is None,
    {
        ConnectPayload {
            client_id: Some(client_id),
            will_topic: None,
            will_message: None,
            username: None,
            password: None,
        }
    }

    /// Appends each field that is present, in the fixed order.
    pub fn write(&self, buf: &mut Vec<u8>)
        requires
            opt_fits(opt_view(self.client_id)),
            opt_fits(opt_view(self.will_topic)),
            opt_fits(opt_view(self.will_message)),
            opt_fits(opt_view(self.username)),
            opt_fits(opt_view(self.password)),
        ensures
            final(buf)@ == old(buf)@ + opt_field(opt_view(self.client_id)) + opt_field(
                opt_view(self.will_topic),
            ) + opt_field(opt_view(self.will_message)) + opt_field(opt_view(self.username))
                + opt_field(opt_view(self.password)),
    {
        write_opt_string(buf, &self.client_id);
        write_opt_string(buf, &self.will_topic);
        write_opt_string(buf, &self.will_message);
        write_opt_string(buf, &self.username);
        write_opt_string(buf, &self.password);
    }
}

#[derive(Debug, PartialEq, Eq)]
pub struct ConnectPacket {
    pub variable_header: ConnectVariableHeader,
    pub payload: ConnectPayload,
}

impl ConnectPacket {
    /// A CONNECT with the given client id and clean-session flag, no will,
    /// no credentials, and a keep-alive of 60 seconds.
    pub fn new(client_id: String, clean_session: bool) -> (r: Self)
        ensures
            r@ == new_connect_view(client_id@, clean_session),
    {
        Self {
            variable_header: ConnectVariableHeader::new(clean_session, DEFAULT_KEEPALIVE),
            payload: ConnectPayload::new(client_id),
        }
    }

    /// Appends the body of this CONNECT and returns its length.
    pub fn write(&self, buf: &mut Vec<u8>) -> (r: usize)
        requires
            connect_wf(self@),
        ensures
            final(buf)@ == old(buf)@ + connect_bytes(self@),
            r == connect_bytes(self@).len(),
    {
        let start = buf.len();
        // The protocol name "MQTT" as a string field.
        write_u16(buf, 4);
        buf.push(0x4D);
        buf.push(0x51);
        buf.push(0x54);
        buf.push(0x54);
        buf.push(MQTT_V4);
        self.variable_header.write(buf);
        self.payload.write(buf);
        assert(final(buf)@ =~= old(buf)@ + connect_bytes(self@));
        buf.len() - start
    }
}

/// The connect flags that byte `b` carries, laid out as
/// `connect_flags_byte` writes them.
pub open spec fn connect_flags_of(b: u8) -> ConnectFlags {
    ConnectFlags {
        clean_session: b & 0x02 != 0,
        will: b & 0x04 != 0,
        will_qos: (b >> 3) & 3,
        will_retain: b & 0x20 != 0,
        password: b & 0x40 != 0,
        username: b & 0x80 != 0,
    }
}

impl ConnectFlags {
    /// The flags that `byte` carries, or `None` where the reserved bit 0 is
    /// set or the will QoS is 3.
    pub fn from_byte(byte: u8) -> (r: Option<ConnectFlags>)
        ensures
            r is Some <==> byte & 1 == 0 && (byte >> 3) & 3 <= 2,
            r matches Some(f) ==> f == connect_flags_of(byte),
    {
        if byte & 1 != 0 || (byte >> 3) & 3 > 2 {
            return None;
        }
        Some(
            ConnectFlags {
                clean_session: byte & 0x02 != 0,
                will: byte & 0x04 != 0,
                will_qos: (byte >> 3) & 3,
                will_retain: byte & 0x20 != 0,
                password: byte & 0x40 != 0,
                username: byte & 0x80 != 0,
            },
        )
    }
}

proof fn lemma_connect_flag_bits(u: u8, p: u8, r: u8, q: u8, w: u8, c: u8)
    by (bit_vector)
    requires
        u <= 1,
        p <= 1,
        r <= 1,
        q <= 2,
        w <= 1,
        c <= 1,
    ensures
        ({
            let b: u8 = (128 * u + 64 * p + 32 * r + 8 * q + 4 * w + 2 * c) as u8;
            &&& b & 1 == 0
            &&& (b & 0x02 != 0) == (c == 1)
            &&& (b & 0x04 != 0) == (w == 1)
            &&& (b >> 3) & 3 == q
            &&& (b & 0x20 != 0) == (r == 1)
            &&& (b & 0x40 != 0) == (p == 1)
            &&& (b & 0x80 != 0) == (u == 1)
        }),
{
}

/// Flags with a will QoS of 0 to 2 read back from their own byte.
pub proof fn lemma_connect_flags_round_trip(f: ConnectFlags)
    requires
        f.will_qos <= 2,
    ensures
        connect_flags_byte(f) & 1 == 0,
        (connect_flags_byte(f) >> 3) & 3 <= 2,
        connect_flags_of(connect_flags_byte(f)) == f,
{
    let u: u8 = if f.username {
        1
    } else {
        0
    };
    let p: u8 = if f.password {
        1
    } else {
        0
    };
    let r: u8 = if f.will_retain {
        1
    } else {
        0
    };
    let w: u8 = if f.will {
        1
    } else {
        0
    };
    let c: u8 = if f.clean_session {
        1
    } else {
        0
    };
    lemma_connect_flag_bits(u, p, r, f.will_qos, w, c);
    assert(connect_flags_byte(f) == (128 * u + 64 * p + 32 * r + 8 * f.will_qos + 4 * w + 2
        * c) as u8);
}

/// Decodes an optional string field at the start of `s`: absent when
/// `present` is false, taking no bytes.
pub open spec fn parse_opt_string(s: Seq<u8>, present: bool) -> Result<
    (Option<Seq<char>>, nat),
    TransportError,
> {
    if !present {
        Ok((None, 0))
    } else {
        match parse_string(s) {
            Ok((v, n)) => Ok((Some(v), n)),
            Err(e) => Err(e),
        }
    }
}

/// Decodes the payload of a CONNECT held in `s`, which must be taken
/// whole: the client id, then the fields that `flags` calls for.
pub open spec fn parse_connect_payload(s: Seq<u8>, flags: ConnectFlags, keepalive: u16) -> Result<
    ConnectView,
    TransportError,
> {
    let len = s.len() as int;
    match parse_string(s) {
        Err(e) => Err(e),
        Ok((client_id, n1)) => {
            let k1 = n1 as int;
            match parse_opt_string(s.subrange(k1, len), flags.will) {
                Err(e) => Err(e),
                Ok((will_topic, n2)) => {
                    let k2 = k1 + n2;
                    match parse_opt_string(s.subrange(k2, len), flags.will) {
                        Err(e) => Err(e),
                        Ok((will_message, n3)) => {
                            let k3 = k2 + n3;
                            match parse_opt_string(s.subrange(k3, len), flags.username) {
                                Err(e) => Err(e),
                                Ok((username, n4)) => {
                                    let k4 = k3 + n4;
                                    match parse_opt_string(s.subrange(k4, len), flags.password) {
                                        Err(e) => Err(e),
                                        Ok((password, n5)) => if k4 + n5 != len {
                                            Err(TransportError::MalformedPacket)
                                        } else {
                                            Ok(
                                                ConnectView {
                                                    flags,
                                                    keepalive,
                                                    client_id: Some(client_id),
                                                    will_topic,
                                                    will_message,
                                                    username,
                                                    password,
                                                },
                                            )
                                        },
                                    }
                                },
                            }
                        },
                    }
                },
            }
        },
    }
}

/// Decodes the body of a CONNECT held in `s`, which must be taken whole: the
/// protocol name "MQTT", level 4, flags with the reserved bit clear and a
/// will QoS of 0 to 2, the keep-alive, then the payload.
pub open spec fn parse_connect(s: Seq<u8>) -> Result<ConnectView, TransportError> {
    if s.len() < 10 || s.subrange(0, 6) != protocol_name_bytes() || s[6] != MQTT_V4 || s[7] & 1
        != 0 || (s[7] >> 3) & 3 > 2 {
        Err(TransportError::MalformedPacket)
    } else {
        parse_connect_payload(
            s.subrange(10, s.len() as int),
            connect_flags_of(s[7]),
            be_u16(s[8], s[9]),
        )
    }
}

fn read_opt_string(buf: &[u8], present: bool) -> (r: Result<(Option<String>, usize), TransportError>)
    ensures
        r is Ok <==> parse_opt_string(buf@, present) is Ok,
        r matches Ok((v, n)) ==> parse_opt_string(buf@, present) == Ok::<
            (Option<Seq<char>>, nat),
            TransportError,
        >((opt_view(v), n as nat)) && n <= buf@.len(),
        r matches Err(e) ==> parse_opt_string(buf@, present) == Err::<
            (Option<Seq<char>>, nat),
            TransportError,
        >(e),
{
    if !present {
        return Ok((None, 0));
    }
    let (s, n) = read_string(buf)?;
    Ok((Some(s), n))
}

impl ConnectPacket {
    /// Reads the body of a CONNECT, which `bytes` holds whole.
    pub fn from_bytes(bytes: &[u8]) -> (r: Result<ConnectPacket, TransportError>)
        ensures
            r is Ok <==> parse_connect(bytes@) is Ok,
            r matches Ok(p) ==> parse_connect(bytes@) == Ok::<ConnectView, TransportError>(p@),
            r matches Err(e) ==> parse_connect(bytes@) == Err::<ConnectView, TransportError>(e),
    {
        let len = bytes.len();
        if len < 10 || bytes[0] != 0x00 || bytes[1] != 0x04 || bytes[2] != 0x4D || bytes[3] != 0x51
            || bytes[4] != 0x54 || bytes[5] != 0x54 || bytes[6] != MQTT_V4 {
            proof {
                if len >= 10 {
                    assert(bytes@.subrange(0, 6) != protocol_name_bytes() || bytes@[6] != MQTT_V4) by {
                        if bytes@.subrange(0, 6) == protocol_name_bytes() {
                            assert(bytes@[0] == bytes@.subrange(0, 6)[0]);
                            assert(bytes@[1] == bytes@.subrange(0, 6)[1]);
                            assert(bytes@[2] == bytes@.subrange(0, 6)[2]);
                            assert(bytes@[3] == bytes@.subrange(0, 6)[3]);
                            assert(bytes@[4] == bytes@.subrange(0, 6)[4]);
                            assert(bytes@[5] == bytes@.subrange(0, 6)[5]);
                        }
                    }
                }
            }
            return Err(TransportError::MalformedPacket);
        }
        assert(bytes@.subrange(0, 6) =~= protocol_name_bytes());
        let flags = match ConnectFlags::from_byte(bytes[7]) {
            Some(f) => f,
            None => {
                return Err(TransportError::MalformedPacket);
            },
        };
        let keepalive = read_u16(slice_subrange(bytes, 8, len));
        read_connect_payload(slice_subrange(bytes, 10, len), flags, keepalive)
    }
}

fn read_connect_payload(buf: &[u8], flags: ConnectFlags, keepalive: u16) -> (r: Result<
    ConnectPacket,
    TransportError,
>)
    ensures
        r is Ok <==> parse_connect_payload(buf@, flags, keepalive) is Ok,
        r matches Ok(p) ==> parse_connect_payload(buf@, flags, keepalive) == Ok::<
            ConnectView,
            TransportError,
        >(p@),
        r matches Err(e) ==> parse_connect_payload(buf@, flags, keepalive) == Err::<
            ConnectView,
            TransportError,
        >(e),
{
    let len = buf.len();
    let (client_id, k1) = read_string(buf)?;
    let (will_topic, n2) = read_opt_string(slice_subrange(buf, k1, len), flags.will)?;
    let k2 = k1 + n2;
    let (will_message, n3) = read_opt_string(slice_subrange(buf, k2, len), flags.will)?;
    let k3 = k2 + n3;
    let (username, n4) = read_opt_string(slice_subrange(buf, k3, len), flags.username)?;
    let k4 = k3 + n4;
    let (password, n5) = read_opt_string(slice_subrange(buf, k4, len), flags.password)?;
    if k4 + n5 != len {
        return Err(TransportError::MalformedPacket);
    }
    Ok(
        ConnectPacket {
            variable_header: ConnectVariableHeader { flags, keepalive },
            payload: ConnectPayload {
                client_id: Some(client_id),
                will_topic,
                will_message,
                username,
                password,
            },
        },
    )
}

/// Decoding an optional string field, told whether it is there, gives it
/// back, whatever follows.
pub proof fn lemma_opt_string_round_trip(o: Option<Seq<char>>, rest: Seq<u8>)
    requires
        opt_fits(o),
    ensures
        parse_opt_string(opt_field(o) + rest, o is Some) == Ok::<
            (Option<Seq<char>>, nat),
            TransportError,
        >((o, opt_field(o).len())),
{
    match o {
        Some(v) => {
            lemma_string_round_trip(v, rest);
        },
        None => {},
    }
}

#[verifier::rlimit(80)]
proof fn lemma_connect_payload_round_trip(c: ConnectView)
    requires
        connect_wf(c),
    ensures
        parse_connect_payload(connect_payload_bytes(c), c.flags, c.keepalive) == Ok::<
            ConnectView,
            TransportError,
        >(c),
{
    let s = connect_payload_bytes(c);
    let f0 = opt_field(c.client_id);
    let f1 = opt_field(c.will_topic);
    let f2 = opt_field(c.will_message);
    let f3 = opt_field(c.username);
    let f4 = opt_field(c.password);
    assert(s =~= f0 + (f1 + (f2 + (f3 + f4))));
    let len = s.len() as int;
    lemma_opt_string_round_trip(c.client_id, f1 + (f2 + (f3 + f4)));
    let k1 = f0.len() as int;
    assert(s.subrange(k1, len) =~= f1 + (f2 + (f3 + f4)));
    lemma_opt_string_round_trip(c.will_topic, f2 + (f3 + f4));
    let k2 = k1 + f1.len();
    assert(s.subrange(k2, len) =~= f2 + (f3 + f4));
    lemma_opt_string_round_trip(c.will_message, f3 + f4);
    let k3 = k2 + f2.len();
    assert(s.subrange(k3, len) =~= f3 + f4);
    lemma_opt_string_round_trip(c.username, f4);
    let k4 = k3 + f3.len();
    assert(s.subrange(k4, len) =~= f4);
    assert(f4 + Seq::<u8>::empty() =~= f4);
    lemma_opt_string_round_trip(c.password, Seq::<u8>::empty());
}

/// Decoding the body of a well-formed CONNECT gives the packet back.
pub proof fn lemma_connect_round_trip(c: ConnectView)
    requires
        connect_wf(c),
    ensures
        parse_connect(connect_bytes(c)) == Ok::<ConnectView, TransportError>(c),
{
    let s = connect_bytes(c);
    let head = protocol_name_bytes() + seq![MQTT_V4, connect_flags_byte(c.flags)] + u16_be(
        c.keepalive,
    );
    assert(head.len() == 10);
    assert(s =~= head + connect_payload_bytes(c));
    assert(s.subrange(0, 6) =~= protocol_name_bytes());
    assert(s[6] == MQTT_V4);
    assert(s[7] == connect_flags_byte(c.flags));
    assert(s[8] == u16_be(c.keepalive)[0]);
    assert(s[9] == u16_be(c.keepalive)[1]);
    lemma_connect_flags_round_trip(c.flags);
    assert(s.subrange(10, s.len() as int) =~= connect_payload_bytes(c));
    lemma_connect_payload_round_trip(c);
}

} // verus!
