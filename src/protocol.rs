//! Wire primitives: the variable-length "remaining length" integer,
//! big-endian 16-bit integers and length-prefixed strings and byte blobs.
use byteorder::{ByteOrder, NetworkEndian};
use vstd::prelude::*;
use vstd::slice::{slice_subrange, slice_to_vec};
use vstd::utf8::{decode_utf8, encode_utf8, valid_utf8};

verus! {

/// The largest value that the remaining-length field can carry.
pub const MAX_PAYLOAD_SIZE: usize = 268_435_455;

/// The smallest number of bytes a fixed header takes on the wire.
pub const MQTT_HEADER_LEN: usize = 2;

/// What can go wrong while encoding or decoding a packet.
#[derive(Debug, Clone, Copy, PartialEq, Eq, Structural)]
pub enum TransportError {
    /// The source ends before the value is complete; at least this many more
    /// bytes are needed.
    InsufficientBytes(usize),
    /// A field declares this length, which runs past the end of the packet.
    BoundaryCrossed(usize),
    /// A fixed-size field is truncated or holds a value the protocol forbids.
    MalformedPacket,
    /// The remaining-length field has more than four bytes.
    MalformedRemainingLength,
    /// A string field does not hold valid UTF-8.
    StringNotUtf8,
    /// The packet, or one of its length-prefixed fields, is too long to encode.
    PayloadTooLong,
}

/// The bytes of the variable-length encoding of `n`: seven data bits per
/// byte, least significant group first, with bit 7 set on every byte but the
/// last.
pub open spec fn varint(n: nat) -> Seq<u8>
    decreases n,
{
    if n < 128 {
        seq![n as u8]
    } else {
        seq![(n % 128 + 128) as u8] + varint(n / 128)
    }
}

/// The length of the encoding of `n`, for each of its four ranges.
pub proof fn lemma_varint_len(n: nat)
    ensures
        n < 128 ==> varint(n).len() == 1,
        128 <= n < 16384 ==> varint(n).len() == 2,
        16384 <= n < 2097152 ==> varint(n).len() == 3,
        2097152 <= n < 268435456 ==> varint(n).len() == 4,
        varint(n).len() >= 1,
    decreases n,
{
    if n >= 128 {
        lemma_varint_len(n / 128);
    }
}

/// Appends the variable-length encoding of `len` to `buf` and returns how
/// many bytes it took. A value above `MAX_PAYLOAD_SIZE` is refused before
/// anything is written.
pub fn write_remaining_length(buf: &mut Vec<u8>, len: usize) -> (r: Result<usize, TransportError>)
    ensures
        len > MAX_PAYLOAD_SIZE ==> r == Err::<usize, TransportError>(TransportError::PayloadTooLong)
            && final(buf)@ == old(buf)@,
        len <= MAX_PAYLOAD_SIZE ==> r == Ok::<usize, TransportError>(varint(len as nat).len() as usize)
            && final(buf)@ == old(buf)@ + varint(len as nat),
{
    if len > MAX_PAYLOAD_SIZE {
        return Err(TransportError::PayloadTooLong);
    }
    proof {
        lemma_varint_len(len as nat);
    }
    let ghost start = buf@;
    let mut x: usize = len;
    let mut count: usize = 0;
    loop
        invariant_except_break
            buf@ + varint(x as nat) == start + varint(len as nat),
            count + varint(x as nat).len() == varint(len as nat).len(),
        invariant
            x <= len <= MAX_PAYLOAD_SIZE,
            varint(len as nat).len() <= 4,
        ensures
            buf@ == start + varint(len as nat),
            count == varint(len as nat).len(),
        decreases x,
    {
        proof {
            lemma_varint_len(x as nat);
        }
        if x < 128 {
            buf.push(x as u8);
            count = count + 1;
            assert(buf@ =~= start + varint(len as nat));
            break;
        }
        let byte: u8 = ((x % 128) + 128) as u8;
        buf.push(byte);
        proof {
            assert(varint(x as nat) == seq![byte] + varint((x / 128) as nat));
            assert(buf@ + varint((x / 128) as nat) =~= start + varint(len as nat));
        }
        x = x / 128;
        count = count + 1;
    }
    Ok(count)
}

/// A strict upper bound on what the bytes of a remaining-length field from
/// byte `i` on can add, in units of 128 to the power `i`.
pub open spec fn varint_bound(i: nat) -> nat {
    if i == 0 {
        268435456
    } else if i == 1 {
        2097152
    } else if i == 2 {
        16384
    } else {
        128
    }
}

/// Decodes a remaining-length field whose byte `i` is the next to read, `i`
/// bytes of it having carried the continuation bit: the value that the bytes
/// from `i` on add (in units of 128 to the power `i`), and the index just
/// past the field.
pub open spec fn varint_from(s: Seq<u8>, i: nat) -> Result<(nat, nat), TransportError>
    decreases 4 - i,
{
    if i >= 4 {
        Err(TransportError::MalformedRemainingLength)
    } else if i >= s.len() {
        Err(TransportError::InsufficientBytes(1))
    } else if s[i as int] < 128 {
        Ok((s[i as int] as nat, i + 1))
    } else {
        match varint_from(s, i + 1) {
            Ok((v, n)) => Ok((((s[i as int] - 128) + 128 * v) as nat, n)),
            Err(e) => Err(e),
        }
    }
}

/// Decodes the remaining-length field at the start of `s`: its value and the
/// number of bytes it takes.
pub open spec fn parse_varint(s: Seq<u8>) -> Result<(nat, nat), TransportError> {
    varint_from(s, 0)
}

fn read_varint_from(buf: &[u8], i: usize) -> (r: Result<(u32, usize), TransportError>)
    requires
        i <= 4,
    ensures
        r is Ok <==> varint_from(buf@, i as nat) is Ok,
        r matches Ok((v, n)) ==> varint_from(buf@, i as nat) == Ok::<(nat, nat), TransportError>(
            (v as nat, n as nat),
        ) && v < varint_bound(i as nat) && i < n <= 4 && n <= buf@.len(),
        r matches Err(e) ==> varint_from(buf@, i as nat) == Err::<(nat, nat), TransportError>(e),
    decreases 4 - i,
{
    if i >= 4 {
        return Err(TransportError::MalformedRemainingLength);
    }
    if i >= buf.len() {
        return Err(TransportError::InsufficientBytes(1));
    }
    let c = buf[i];
    if c < 128 {
        return Ok((c as u32, i + 1));
    }
    match read_varint_from(buf, i + 1) {
        Ok((v, n)) => Ok(((c - 128) as u32 + 128 * v, n)),
        Err(e) => Err(e),
    }
}

/// Reads the remaining-length field at the start of `buf`, returning its
/// value and the number of bytes it takes.
pub fn read_remaining_length(buf: &[u8]) -> (r: Result<(u32, usize), TransportError>)
    ensures
        r is Ok <==> parse_varint(buf@) is Ok,
        r matches Ok((v, n)) ==> parse_varint(buf@) == Ok::<(nat, nat), TransportError>(
            (v as nat, n as nat),
        ) && v <= MAX_PAYLOAD_SIZE && 1 <= n <= 4 && n <= buf@.len(),
        r matches Err(e) ==> parse_varint(buf@) == Err::<(nat, nat), TransportError>(e),
{
    read_varint_from(buf, 0)
}

/// Decoding the bytes at `i` that start with the encoding of `n` gives `n`
/// back, where the field fits in its four bytes.
pub proof fn lemma_varint_from_encoding(s: Seq<u8>, i: nat, n: nat)
    requires
        i + varint(n).len() <= 4,
        i + varint(n).len() <= s.len(),
        s.subrange(i as int, (i + varint(n).len()) as int) == varint(n),
    ensures
        varint_from(s, i) == Ok::<(nat, nat), TransportError>((n, i + varint(n).len())),
    decreases n,
{
    lemma_varint_len(n);
    let k = varint(n).len() as int;
    let ii = i as int;
    assert(s[ii] == s.subrange(ii, ii + k)[0]);
    if n >= 128 {
        let rest = varint(n / 128);
        lemma_varint_len(n / 128);
        assert(k == rest.len() + 1);
        assert(s.subrange(ii + 1, ii + k) =~= rest) by {
            assert forall|j: int| 0 <= j < rest.len() implies s.subrange(ii + 1, ii + k)[j]
                == rest[j] by {
                assert(s[ii + 1 + j] == s.subrange(ii, ii + k)[1 + j]);
                assert(varint(n)[1 + j] == rest[j]);
            }
        }
        lemma_varint_from_encoding(s, i + 1, n / 128);
    }
}

/// Decoding the encoding of a representable value gives the value back,
/// whatever follows it.
pub proof fn lemma_varint_round_trip(n: nat, rest: Seq<u8>)
    requires
        n <= MAX_PAYLOAD_SIZE,
    ensures
        parse_varint(varint(n) + rest) == Ok::<(nat, nat), TransportError>((n, varint(n).len())),
{
    lemma_varint_len(n);
    let s = varint(n) + rest;
    assert(s.subrange(0, varint(n).len() as int) =~= varint(n));
    lemma_varint_from_encoding(s, 0, n);
}

/// The number of bytes, beyond the first, that the remaining-length field
/// takes for `len`; 3 for a value too large to encode.
pub fn mqtt_remaining_length_size(len: usize) -> (r: usize)
    ensures
        len <= MAX_PAYLOAD_SIZE ==> r + 1 == varint(len as nat).len(),
        len > MAX_PAYLOAD_SIZE ==> r == 3,
{
    proof {
        lemma_varint_len(len as nat);
    }
    if len >= 2097152 {
        3
    } else if len >= 16384 {
        2
    } else if len >= 128 {
        1
    } else {
        0
    }
}

/// The two bytes of `n`, most significant first.
pub open spec fn u16_be(n: u16) -> Seq<u8> {
    seq![(n / 256) as u8, (n % 256) as u8]
}

/// The integer whose most significant byte is `hi` and least significant
/// byte is `lo`.
pub open spec fn be_u16(hi: u8, lo: u8) -> u16 {
    (hi * 256 + lo) as u16
}

/// Relies on byteorder's `ByteOrder::read_u16` for `NetworkEndian`: the first
/// two bytes of `buf` read as a big-endian integer (it panics on fewer).
#[verifier::external_body]
pub(crate) fn read_u16(buf: &[u8]) -> (r: u16)
    requires
        buf@.len() >= 2,
    ensures
        r == be_u16(buf@[0], buf@[1]),
{
    NetworkEndian::read_u16(buf)
}

/// Relies on byteorder's `ByteOrder::write_u16` for `NetworkEndian`: `n` as
/// two big-endian bytes.
#[verifier::external_body]
fn u16_bytes(n: u16) -> (r: [u8; 2])
    ensures
        r@ == u16_be(n),
{
    let mut b = [0u8; 2];
    NetworkEndian::write_u16(&mut b, n);
    b
}

/// Appends `n` as two big-endian bytes.
pub fn write_u16(buf: &mut Vec<u8>, n: u16)
    ensures
        final(buf)@ == old(buf)@ + u16_be(n),
{
    let b = u16_bytes(n);
    buf.push(b[0]);
    buf.push(b[1]);
    assert(final(buf)@ =~= old(buf)@ + u16_be(n));
}

/// Reading back the two bytes of `n` gives `n`.
pub proof fn lemma_u16_round_trip(n: u16)
    ensures
        be_u16(u16_be(n)[0], u16_be(n)[1]) == n,
{
}

/// Appends `bytes` unchanged, with no length prefix.
pub fn write_bytes(buf: &mut Vec<u8>, bytes: &[u8])
    ensures
        final(buf)@ == old(buf)@ + bytes@,
{
    let ghost start = buf@;
    let mut i: usize = 0;
    while i < bytes.len()
        invariant
            i <= bytes@.len(),
            buf@ == start + bytes@.subrange(0, i as int),
        decreases bytes@.len() - i,
    {
        buf.push(bytes[i]);
        i = i + 1;
        assert(buf@ =~= start + bytes@.subrange(0, i as int));
    }
    assert(bytes@.subrange(0, i as int) =~= bytes@);
}

/// A string field: the length of the UTF-8 encoding of `s` as a 16-bit
/// big-endian integer, then that encoding.
pub open spec fn string_field(s: Seq<char>) -> Seq<u8> {
    u16_be(encode_utf8(s).len() as u16) + encode_utf8(s)
}

/// Whether `s` fits in a string field.
pub open spec fn fits_string_field(s: Seq<char>) -> bool {
    encode_utf8(s).len() <= 65535
}

/// Appends `string` as a string field.
pub fn write_string(buf: &mut Vec<u8>, string: &str)
    requires
        fits_string_field(string@),
    ensures
        final(buf)@ == old(buf)@ + string_field(string@),
{
    let message = string.as_bytes();
    write_u16(buf, message.len() as u16);
    write_bytes(buf, message);
    assert(final(buf)@ =~= old(buf)@ + string_field(string@));
}

/// Decodes the string field at the start of `s` (which ends where the packet
/// does): the characters and the number of bytes the field takes.
pub open spec fn parse_string(s: Seq<u8>) -> Result<(Seq<char>, nat), TransportError> {
    if s.len() < 2 {
        Err(TransportError::MalformedPacket)
    } else {
        let len = be_u16(s[0], s[1]) as nat;
        if 2 + len > s.len() {
            Err(TransportError::BoundaryCrossed(len as usize))
        } else if !valid_utf8(s.subrange(2, 2 + len as int)) {
            Err(TransportError::StringNotUtf8)
        } else {
            Ok((decode_utf8(s.subrange(2, 2 + len as int)), 2 + len))
        }
    }
}

/// Relies on `String::from_utf8`: it succeeds exactly on valid UTF-8, and the
/// string it returns holds the given bytes.
#[verifier::external_body]
fn string_from_utf8(bytes: Vec<u8>) -> (r: Option<String>)
    ensures
        r is Some <==> valid_utf8(bytes@),
        r matches Some(s) ==> encode_utf8(s@) == bytes@,
{
    String::from_utf8(bytes).ok()
}

/// Reads the string field at the start of `buf`, which ends where the packet
/// does, returning the string and the number of bytes the field takes.
pub fn read_string(buf: &[u8]) -> (r: Result<(String, usize), TransportError>)
    ensures
        r is Ok <==> parse_string(buf@) is Ok,
        r matches Ok((s, n)) ==> parse_string(buf@) == Ok::<(Seq<char>, nat), TransportError>(
            (s@, n as nat),
        ),
        r matches Err(e) ==> parse_string(buf@) == Err::<(Seq<char>, nat), TransportError>(e),
{
    if buf.len() < 2 {
        return Err(TransportError::MalformedPacket);
    }
    let length = read_u16(buf) as usize;
    if length > buf.len() - 2 {
        return Err(TransportError::BoundaryCrossed(length));
    }
    let bytes = slice_to_vec(slice_subrange(buf, 2, 2 + length));
    match string_from_utf8(bytes) {
        Some(s) => {
            proof {
                vstd::utf8::encode_utf8_decode_utf8(s@);
            }
            Ok((s, 2 + length))
        },
        None => Err(TransportError::StringNotUtf8),
    }
}

/// Decoding a string field gives the string back, whatever follows it.
pub proof fn lemma_string_round_trip(s: Seq<char>, rest: Seq<u8>)
    requires
        fits_string_field(s),
    ensures
        parse_string(string_field(s) + rest) == Ok::<(Seq<char>, nat), TransportError>(
            (s, string_field(s).len()),
        ),
{
    let bytes = string_field(s) + rest;
    let enc = encode_utf8(s);
    assert(bytes.subrange(2, 2 + enc.len() as int) =~= enc);
    vstd::utf8::encode_utf8_valid_utf8(s);
    vstd::utf8::encode_utf8_decode_utf8(s);
}

} // verus!
