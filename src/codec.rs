use vstd::prelude::*;
use byteorder::{BigEndian, ByteOrder};
use crate::message::Message;

verus! {

/// The four big-endian bytes of a 32-bit value, most significant first.
pub open spec fn be32_bytes(v: u32) -> Seq<u8> {
    seq![(v >> 24u32) as u8, (v >> 16u32) as u8, (v >> 8u32) as u8, v as u8]
}

/// The 32-bit value whose big-endian bytes open `b`.
pub open spec fn be32_value(b: Seq<u8>) -> u32
    recommends
        b.len() >= 4,
{
    ((b[0] as u32) << 24u32) | ((b[1] as u32) << 16u32) | ((b[2] as u32) << 8u32) | (b[3] as u32)
}

/// Relies on byteorder's `BigEndian::write_u32`, which copies `n.to_be_bytes()`
/// into the first four bytes of the buffer.
#[verifier::external_body]
fn write_be32(n: u32) -> (r: Vec<u8>)
    ensures
        r@ == be32_bytes(n),
{
    let mut buf: Vec<u8> = vec![0u8; 4];
    BigEndian::write_u32(&mut buf, n);
    buf
}

/// Relies on byteorder's `BigEndian::read_u32`, which is
/// `u32::from_be_bytes` of the first four bytes (it panics on fewer).
#[verifier::external_body]
fn read_be32(buf: &[u8]) -> (r: u32)
    requires
        buf@.len() >= 4,
    ensures
        r == be32_value(buf@),
{
    BigEndian::read_u32(buf)
}

/// The eight big-endian bytes of a 64-bit value, most significant first.
pub open spec fn be64_bytes(v: u64) -> Seq<u8> {
    seq![
        (v >> 56u64) as u8, (v >> 48u64) as u8, (v >> 40u64) as u8, (v >> 32u64) as u8,
        (v >> 24u64) as u8, (v >> 16u64) as u8, (v >> 8u64) as u8, v as u8,
    ]
}

/// The 64-bit value whose big-endian bytes open `b`.
pub open spec fn be64_value(b: Seq<u8>) -> u64
    recommends
        b.len() >= 8,
{
    ((b[0] as u64) << 56u64) | ((b[1] as u64) << 48u64) | ((b[2] as u64) << 40u64) | ((b[3] as u64) << 32u64)
        | ((b[4] as u64) << 24u64) | ((b[5] as u64) << 16u64) | ((b[6] as u64) << 8u64) | (b[7] as u64)
}

/// Relies on byteorder's `BigEndian::write_u64`, which copies `n.to_be_bytes()`
/// into the first eight bytes of the buffer.
#[verifier::external_body]
pub(crate) fn write_be64(n: u64) -> (r: Vec<u8>)
    ensures
        r@ == be64_bytes(n),
{
    let mut buf: Vec<u8> = vec![0u8; 8];
    BigEndian::write_u64(&mut buf, n);
    buf
}

/// Relies on byteorder's `BigEndian::read_u64`, which is
/// `u64::from_be_bytes` of the first eight bytes (it panics on fewer).
#[verifier::external_body]
pub(crate) fn read_be64(buf: &[u8]) -> (r: u64)
    requires
        buf@.len() >= 8,
    ensures
        r == be64_value(buf@),
{
    BigEndian::read_u64(buf)
}

/// Reading back eight big-endian bytes gives the value they were written from.
pub proof fn lemma_be64_round_trip(v: u64)
    ensures
        be64_value(be64_bytes(v)) == v,
{
    assert(((((v >> 56u64) as u8) as u64) << 56u64) | ((((v >> 48u64) as u8) as u64) << 48u64)
        | ((((v >> 40u64) as u8) as u64) << 40u64) | ((((v >> 32u64) as u8) as u64) << 32u64)
        | ((((v >> 24u64) as u8) as u64) << 24u64) | ((((v >> 16u64) as u8) as u64) << 16u64)
        | ((((v >> 8u64) as u8) as u64) << 8u64) | ((v as u8) as u64) == v) by (bit_vector);
}

/// The origin stamp of a pipe token: its low 32 bits, big-endian.
pub open spec fn origin_stamp(token: usize) -> Seq<u8> {
    be32_bytes(token as u32)
}

/// A message as stamped by the receiving side with the token of its pipe.
pub open spec fn stamped(m: (Seq<u8>, Seq<u8>), token: usize) -> (Seq<u8>, Seq<u8>) {
    (m.0 + origin_stamp(token), m.1)
}

/// A message to send with any leading origin stamp taken off, and that origin.
pub open spec fn strip_origin(m: (Seq<u8>, Seq<u8>)) -> ((Seq<u8>, Seq<u8>), Option<u32>) {
    if m.0.len() < 4 {
        (m, None)
    } else {
        ((m.0.subrange(4, m.0.len() as int), m.1), Some(be32_value(m.0)))
    }
}

/// Reading back a stamp gives the value it was written from.
pub proof fn lemma_be32_round_trip(v: u32)
    ensures
        be32_value(be32_bytes(v)) == v,
{
    assert(((((v >> 24u32) as u8) as u32) << 24u32) | ((((v >> 16u32) as u8) as u32) << 16u32)
        | ((((v >> 8u32) as u8) as u32) << 8u32) | ((v as u8) as u32) == v) by (bit_vector);
}

/// Stamps a message received from pipe `pipe_id`: the token's low 32 bits,
/// big-endian, are appended to the header; the body is untouched.
pub fn decode(raw_msg: Message, pipe_id: usize) -> (r: Message)
    ensures
        r@ == stamped(raw_msg@, pipe_id),
{
    let mut msg = raw_msg;
    let stamp = write_be32(pipe_id as u32);
    let mut i: usize = 0;
    let ghost h0 = msg.header@;
    while i < 4
        invariant
            i <= 4,
            stamp@ == be32_bytes(pipe_id as u32),
            msg.header@ == h0 + stamp@.subrange(0, i as int),
            msg.body@ == raw_msg@.1,
        decreases 4 - i,
    {
        msg.header.push(stamp[i]);
        i = i + 1;
    }
    assert(stamp@.subrange(0, 4) == stamp@);
    msg
}

/// Splits the origin stamp off a message submitted for sending. A header of
/// at least four bytes opens with a big-endian origin, which is removed and
/// returned; a shorter header carries none and the message is kept whole.
pub fn encode(msg: Message) -> (r: (Message, Option<u32>))
    ensures
        (r.0@, r.1) == strip_origin(msg@),
{
    if msg.get_header().len() < 4 {
        return (msg, None);
    }
    let (mut header, body) = msg.explode();
    let remaining_header = header.split_off(4);
    let pipe_id = read_be32(header.as_slice());
    let raw_msg = Message::with_header_and_body(remaining_header, body);
    (raw_msg, Some(pipe_id))
}

/// A message received with an empty header and stamped with the token of
/// its pipe yields, once the stamp is split off for sending, the message as
/// it came and that token: the stamp is the header's last four bytes.
pub proof fn lemma_stamp_round_trip(m: (Seq<u8>, Seq<u8>), token: usize)
    requires
        m.0.len() == 0,
        token <= u32::MAX,
    ensures
        strip_origin(stamped(m, token)) == (m, Some(token as u32)),
{
    lemma_be32_round_trip(token as u32);
    let h = stamped(m, token).0;
    assert(h =~= origin_stamp(token));
    assert(h.subrange(4, 4) =~= m.0);
}

} // verus!
