//! CONNACK: the broker's answer to CONNECT.
use crate::protocol::TransportError;
use vstd::prelude::*;

verus! {

/// Return code in connack
#[derive(Debug, Clone, Copy, PartialEq, Eq, Structural)]
pub enum ConnectReturnCode {
    Success,
    RefusedProtocolVersion,
    BadClientId,
    ServiceUnavailable,
    BadUserNamePassword,
    NotAuthorized,
    Unknown,
}

/// The return code that byte `b` stands for; every value above 5 is
/// `Unknown`.
pub open spec fn return_code_of(b: u8) -> ConnectReturnCode {
    if b == 0 {
        ConnectReturnCode::Success
    } else if b == 1 {
        ConnectReturnCode::RefusedProtocolVersion
    } else if b == 2 {
        ConnectReturnCode::BadClientId
    } else if b == 3 {
        ConnectReturnCode::ServiceUnavailable
    } else if b == 4 {
        ConnectReturnCode::BadUserNamePassword
    } else if b == 5 {
        ConnectReturnCode::NotAuthorized
    } else {
        ConnectReturnCode::Unknown
    }
}

/// The byte written for `c`; `Unknown` is written as 6.
pub open spec fn return_code_byte(c: ConnectReturnCode) -> u8 {
    match c {
        ConnectReturnCode::Success => 0,
        ConnectReturnCode::RefusedProtocolVersion => 1,
        ConnectReturnCode::BadClientId => 2,
        ConnectReturnCode::ServiceUnavailable => 3,
        ConnectReturnCode::BadUserNamePassword => 4,
        ConnectReturnCode::NotAuthorized => 5,
        ConnectReturnCode::Unknown => 6,
    }
}

impl ConnectReturnCode {
    /// The byte that stands for this code on the wire.
    pub fn to_byte(&self) -> (r: u8)
        ensures
            r == return_code_byte(*self),
    {
        match self {
            ConnectReturnCode::Success => 0,
            ConnectReturnCode::RefusedProtocolVersion => 1,
            ConnectReturnCode::BadClientId => 2,
            ConnectReturnCode::ServiceUnavailable => 3,
            ConnectReturnCode::BadUserNamePassword => 4,
            ConnectReturnCode::NotAuthorized => 5,
            ConnectReturnCode::Unknown => 6,
        }
    }
}

#[derive(Debug, Clone, Copy, PartialEq, Eq, Structural)]
pub struct ConnackPacket {
    pub session_present: bool,
    pub return_code: ConnectReturnCode,
}

/// The body of a CONNACK: the session-present flag as 1 or 0, then the
/// return code.
pub open spec fn connack_bytes(p: ConnackPacket) -> Seq<u8> {
    seq![
        if p.session_present {
            1u8
        } else {
            0u8
        },
        return_code_byte(p.return_code),
    ]
}

/// Decodes the body of a CONNACK held in `s`.
pub open spec fn parse_connack(s: Seq<u8>) -> Result<ConnackPacket, TransportError> {
    if s.len() < 2 {
        Err(TransportError::MalformedPacket)
    } else {
        Ok(ConnackPacket { session_present: s[0] != 0, return_code: return_code_of(s[1]) })
    }
}

impl ConnackPacket {
    /// Reads the two bytes of a CONNACK body from the start of `bytes`.
    pub fn from_bytes(bytes: &[u8]) -> (r: Result<ConnackPacket, TransportError>)
        ensures
            r == parse_connack(bytes@),
    {
        if bytes.len() < 2 {
            return Err(TransportError::MalformedPacket);
        }
        let session_present = bytes[0] != 0;
        let return_code = match bytes[1] {
            0 => ConnectReturnCode::Success,
            1 => ConnectReturnCode::RefusedProtocolVersion,
            2 => ConnectReturnCode::BadClientId,
            3 => ConnectReturnCode::ServiceUnavailable,
            4 => ConnectReturnCode::BadUserNamePassword,
            5 => ConnectReturnCode::NotAuthorized,
            _ => ConnectReturnCode::Unknown,
        };
        Ok(ConnackPacket { session_present, return_code })
    }

    /// Appends the body of this CONNACK and returns its length.
    pub fn write(&self, buf: &mut Vec<u8>) -> (r: usize)
        ensures
            final(buf)@ == old(buf)@ + connack_bytes(*self),
            r == connack_bytes(*self).len(),
    {
        let flag: u8 = if self.session_present {
            1
        } else {
            0
        };
        buf.push(flag);
        buf.push(self.return_code.to_byte());
        assert(final(buf)@ =~= old(buf)@ + connack_bytes(*self));
        2
    }
}

/// Decoding the body of a CONNACK gives the packet back, whatever follows.
pub proof fn lemma_connack_round_trip(p: ConnackPacket, rest: Seq<u8>)
    ensures
        parse_connack(connack_bytes(p) + rest) == Ok::<ConnackPacket, TransportError>(p),
{
    let s = connack_bytes(p) + rest;
    assert(s[0] == connack_bytes(p)[0]);
    assert(s[1] == connack_bytes(p)[1]);
}

} // verus!
