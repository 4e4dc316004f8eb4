//! Packets: an identifier as a variable-length integer, then a payload; and
//! the threshold rule that decides whether a frame carries one as it is or
//! deflated.

use crate::bytes::append;
use crate::cursor::read_array_fixed_cursor;
use crate::cursor::read_varint_cursor;
use crate::cursor::Cursor;
use crate::error::Error;
use crate::frame;
use crate::varint;
use crate::zlib;
use vstd::prelude::*;
use vstd::slice::slice_subrange;
use vstd::slice::slice_to_vec;

verus! {

/// A packet before framing: its identifier, then its payload.
pub open spec fn raw_packet(id: i32, payload: Seq<u8>) -> Seq<u8> {
    varint::encoding(id) + payload
}

/// Whether a frame can carry the packet `(id, payload)`: identifier and
/// payload together are no longer than the longest body a frame can announce.
/// The marker of a packet that goes uncompressed under a threshold then fits
/// as well, since such a packet is shorter than the threshold.
pub open spec fn fits(id: i32, payload: Seq<u8>) -> bool {
    raw_packet(id, payload).len() <= frame::MAX_BODY
}

/// A frame body that carries `raw` as it is, behind the declared length zero.
pub open spec fn plain_body(raw: Seq<u8>) -> Seq<u8> {
    varint::encoding(0) + raw
}

/// A frame body that carries a deflated packet behind the length it had
/// before.
pub open spec fn compressed_body(raw_len: nat, stream: Seq<u8>) -> Seq<u8> {
    varint::encoding(raw_len as i32) + stream
}

/// The frame body for `raw` under `threshold`: `raw` itself where compression
/// is off, `raw` marked as not compressed where it is shorter than the
/// threshold, else its zlib stream behind its length. `None` where the
/// compressor fails.
pub open spec fn body_of(raw: Seq<u8>, threshold: i32) -> Option<Seq<u8>> {
    if threshold < 0 {
        Some(raw)
    } else if raw.len() < threshold {
        Some(plain_body(raw))
    } else {
        match zlib::deflated(raw) {
            Some(stream) => Some(compressed_body(raw.len(), stream)),
            None => None,
        }
    }
}

/// The identifier at the head of `bytes` and the payload behind it.
pub open spec fn packet_at(bytes: Seq<u8>) -> Result<(i32, Seq<u8>), Error> {
    match varint::decoding(bytes) {
        None => Err(Error::MalformedVarInt),
        Some((id, used)) => Ok((id, bytes.skip(used as int))),
    }
}

/// The packet in what a compressed body inflated to: it must have inflated,
/// and to exactly the length the body declared.
pub open spec fn inflated_packet_at(declared: i32, data: Option<Seq<u8>>) -> Result<
    (i32, Seq<u8>),
    Error,
> {
    match data {
        None => Err(Error::DecompressionError),
        Some(bytes) => if bytes.len() != declared {
            Err(Error::DecompressionError)
        } else {
            packet_at(bytes)
        },
    }
}

/// The packet in the frame body `body` under `threshold`.
pub open spec fn packet_of(body: Seq<u8>, threshold: i32) -> Result<(i32, Seq<u8>), Error> {
    if threshold < 0 {
        packet_at(body)
    } else {
        match varint::decoding(body) {
            None => Err(Error::MalformedVarInt),
            Some((declared, used)) => if declared == 0 {
                packet_at(body.skip(used as int))
            } else {
                inflated_packet_at(declared, zlib::inflated(body.skip(used as int)))
            },
        }
    }
}

/// Whether the outcome `got` of reading a packet is the outcome `want`.
pub open spec fn same_packet(got: Result<(i32, Vec<u8>), Error>, want: Result<
    (i32, Seq<u8>),
    Error,
>) -> bool {
    match got {
        Ok((id, payload)) => want == Ok::<(i32, Seq<u8>), Error>((id, payload@)),
        Err(e) => want == Err::<(i32, Seq<u8>), Error>(e),
    }
}

/// A packet has at least the byte of its identifier and at most five bytes
/// more than its payload, and its own parse gives identifier and payload
/// back.
pub proof fn lemma_raw_packet(id: i32, payload: Seq<u8>)
    ensures
        payload.len() < raw_packet(id, payload).len() <= payload.len() + 5,
        packet_at(raw_packet(id, payload)) == Ok::<(i32, Seq<u8>), Error>((id, payload)),
{
    varint::lemma_round_trip(id, payload);
    assert(raw_packet(id, payload).skip(varint::encoding(id).len() as int) =~= payload);
}

/// Whether a reader recovers `raw` from the body that carries it under
/// `threshold`: always where the body carries it as it is; where it carries a
/// zlib stream, if the decompressor reads `raw` back out of that stream.
pub open spec fn reads_back(raw: Seq<u8>, threshold: i32) -> bool {
    0 <= threshold <= raw.len() ==> (zlib::deflated(raw) matches Some(stream) ==> zlib::inflated(
        stream,
    ) == Some(raw))
}

/// The frame that carries the packet `(id, payload)` under `threshold`, or
/// `None` where the compressor fails or its stream is too long for a frame.
pub open spec fn frame_of(id: i32, payload: Seq<u8>, threshold: i32) -> Option<Seq<u8>> {
    match body_of(raw_packet(id, payload), threshold) {
        Some(body) => if body.len() <= frame::MAX_BODY {
            Some(frame::framed(body))
        } else {
            None
        },
        None => None,
    }
}

/// What is sent under a threshold is received under the same threshold as the
/// packet that was sent: whether compression is off, the packet is below the
/// threshold, or it was deflated and its stream reads back.
pub proof fn lemma_send_receive(id: i32, payload: Seq<u8>, threshold: i32)
    requires
        fits(id, payload),
        body_of(raw_packet(id, payload), threshold) is Some,
        reads_back(raw_packet(id, payload), threshold),
    ensures
        packet_of(body_of(raw_packet(id, payload), threshold)->0, threshold) == Ok::<
            (i32, Seq<u8>),
            Error,
        >((id, payload)),
{
    let raw = raw_packet(id, payload);
    lemma_raw_packet(id, payload);
    if threshold < 0 {
    } else if raw.len() < threshold {
        varint::lemma_round_trip(0, raw);
        assert(plain_body(raw).skip(varint::encoding(0).len() as int) =~= raw);
    } else {
        let stream = zlib::deflated(raw)->0;
        let declared = raw.len() as i32;
        varint::lemma_round_trip(declared, stream);
        assert(compressed_body(raw.len(), stream).skip(varint::encoding(declared).len() as int)
            =~= stream);
    }
}

/// A frame that was sent holds, for a reader under the same threshold, the
/// packet that was sent, and nothing of what follows it on the wire.
pub proof fn lemma_frame_send_receive(id: i32, payload: Seq<u8>, threshold: i32, tail: Seq<u8>)
    requires
        fits(id, payload),
        frame_of(id, payload, threshold) is Some,
        reads_back(raw_packet(id, payload), threshold),
    ensures
        received(frame_of(id, payload, threshold)->0 + tail, threshold) == Ok::<
            ((i32, Seq<u8>), nat),
            Error,
        >(((id, payload), frame_of(id, payload, threshold)->0.len())),
{
    let body = body_of(raw_packet(id, payload), threshold)->0;
    frame::lemma_frame_round_trip(body, tail);
    lemma_send_receive(id, payload, threshold);
}

/// The packet in the frame at the head of `bytes` under `threshold`, and the
/// number of bytes that the frame takes.
pub open spec fn received(bytes: Seq<u8>, threshold: i32) -> Result<((i32, Seq<u8>), nat), Error> {
    match frame::frame_at(bytes) {
        Err(e) => Err(e),
        Ok((body, used)) => match packet_of(body, threshold) {
            Err(e) => Err(e),
            Ok(packet) => Ok((packet, used)),
        },
    }
}

/// The view of what the decompressor answered.
pub open spec fn answer_view(data: Option<Vec<u8>>) -> Option<Seq<u8>> {
    match data {
        Some(bytes) => Some(bytes@),
        None => None,
    }
}

/// The packet that starts at `position` in `bytes` and ends at
/// `packet_length`: the identifier, then all up to that end. A length that
/// lies before the identifier's end or beyond the bytes is a
/// `ProtocolDecodeError`.
pub open spec fn packet_up_to(bytes: Seq<u8>, position: nat, packet_length: int) -> Result<
    (i32, Seq<u8>),
    Error,
> {
    match varint::decoding(bytes.skip(position as int)) {
        None => Err(Error::MalformedVarInt),
        Some((id, used)) => if position + used <= packet_length <= bytes.len() {
            Ok((id, bytes.subrange((position + used) as int, packet_length)))
        } else {
            Err(Error::ProtocolDecodeError)
        },
    }
}

/// Reads a packet out of a cursor over a buffer of which the first
/// `packet_length` bytes belong to it: the identifier, then as payload all
/// from there up to that length, where the cursor then stands. On an error
/// the cursor stays where it was.
pub fn read_packet(cursor: &mut Cursor, packet_length: i32) -> (r: Result<(i32, Vec<u8>), Error>)
    ensures
        final(cursor).bytes() == old(cursor).bytes(),
        same_packet(
            r,
            packet_up_to(old(cursor).bytes(), old(cursor).position(), packet_length as int),
        ),
        r is Ok ==> final(cursor).position() == packet_length,
        r is Err ==> final(cursor).position() == old(cursor).position(),
{
    let start: usize = cursor.pos();
    let id: i32 = match read_varint_cursor(cursor) {
        Ok(v) => v,
        Err(e) => {
            return Err(e);
        },
    };
    let at: usize = cursor.pos();
    if packet_length < 0 || (packet_length as usize) < at {
        cursor.seek(start);
        return Err(Error::ProtocolDecodeError);
    }
    let size: usize = packet_length as usize - at;
    match read_array_fixed_cursor(cursor, size) {
        Ok(payload) => {
            proof {
                assert(payload@ =~= old(cursor).bytes().subrange(at as int, packet_length as int));
            }
            Ok((id, payload))
        },
        Err(e) => {
            cursor.seek(start);
            Err(e)
        },
    }
}

/// The packet at the head of `bytes`: its identifier and, as payload, all the
/// rest.
pub fn parse_packet(bytes: &[u8]) -> (r: Result<(i32, Vec<u8>), Error>)
    ensures
        same_packet(r, packet_at(bytes@)),
{
    match varint::decode(bytes) {
        Ok((id, used)) => {
            let payload = slice_to_vec(slice_subrange(bytes, used, bytes.len()));
            proof {
                assert(payload@ =~= bytes@.skip(used as int));
            }
            Ok((id, payload))
        },
        Err(e) => Err(e),
    }
}

/// The packet in what a compressed body inflated to, given the length that
/// the body declared and the decompressor's answer.
pub fn inflated_packet(declared: i32, data: Option<Vec<u8>>) -> (r: Result<(i32, Vec<u8>), Error>)
    ensures
        same_packet(r, inflated_packet_at(declared, answer_view(data))),
{
    match data {
        None => Err(Error::DecompressionError),
        Some(bytes) => {
            if declared < 0 || bytes.len() != declared as usize {
                Err(Error::DecompressionError)
            } else {
                let ghost all = bytes@;
                let mut cursor = Cursor::new(bytes);
                proof {
                    assert(cursor.remaining() =~= all);
                    match varint::decoding(all) {
                        Some((_, used)) => {
                            varint::lemma_decoding_fits(all);
                            assert(all.subrange(used as int, declared as int) =~= all.skip(
                                used as int,
                            ));
                        },
                        None => {},
                    }
                }
                read_packet(&mut cursor, declared)
            }
        },
    }
}

/// The frame body that carries a packet of `raw_len` bytes as the zlib stream
/// `stream`.
pub fn compressed_frame_body(raw_len: usize, stream: &[u8]) -> (body: Vec<u8>)
    requires
        raw_len <= frame::MAX_BODY,
    ensures
        body@ == compressed_body(raw_len as nat, stream@),
{
    let mut body: Vec<u8> = Vec::new();
    varint::write_varint(&mut body, raw_len as i32);
    append(&mut body, stream);
    proof {
        assert(body@ =~= compressed_body(raw_len as nat, stream@));
    }
    body
}

/// The frame body for the packet `(id, payload)` under `threshold`;
/// `DecompressionError` where the packet is to be deflated and the compressor
/// fails.
pub fn encode_body(id: i32, payload: &[u8], threshold: i32) -> (r: Result<Vec<u8>, Error>)
    requires
        fits(id, payload@),
    ensures
        threshold < 0 || raw_packet(id, payload@).len() < threshold ==> r is Ok,
        match r {
            Ok(body) => body_of(raw_packet(id, payload@), threshold) == Some(body@) && packet_of(
                body@,
                threshold,
            ) == Ok::<(i32, Seq<u8>), Error>((id, payload@)),
            Err(e) => e == Error::DecompressionError && body_of(
                raw_packet(id, payload@),
                threshold,
            ) is None,
        },
{
    let mut raw: Vec<u8> = Vec::new();
    varint::write_varint(&mut raw, id);
    append(&mut raw, payload);
    proof {
        assert(raw@ =~= raw_packet(id, payload@));
        lemma_raw_packet(id, payload@);
    }
    if threshold < 0 {
        proof {
            lemma_send_receive(id, payload@, threshold);
        }
        return Ok(raw);
    }
    if raw.len() < threshold as usize {
        let mut body: Vec<u8> = Vec::new();
        varint::write_varint(&mut body, 0);
        append(&mut body, raw.as_slice());
        proof {
            assert(body@ =~= plain_body(raw@));
            lemma_send_receive(id, payload@, threshold);
        }
        return Ok(body);
    }
    match zlib::deflate(raw.as_slice()) {
        Some(stream) => {
            proof {
                lemma_send_receive(id, payload@, threshold);
            }
            Ok(compressed_frame_body(raw.len(), stream.as_slice()))
        },
        None => Err(Error::DecompressionError),
    }
}

/// The packet in the frame body `body` under `threshold`.
pub fn decode_body(body: &[u8], threshold: i32) -> (r: Result<(i32, Vec<u8>), Error>)
    ensures
        same_packet(r, packet_of(body@, threshold)),
{
    if threshold < 0 {
        return parse_packet(body);
    }
    let (declared, used) = match varint::decode(body) {
        Ok(pair) => pair,
        Err(e) => {
            return Err(e);
        },
    };
    let rest = slice_subrange(body, used, body.len());
    proof {
        assert(rest@ =~= body@.skip(used as int));
    }
    if declared == 0 {
        parse_packet(rest)
    } else {
        inflated_packet(declared, zlib::inflate(rest))
    }
}

/// The bytes of the one frame that carries the packet `(id, payload)` under
/// `threshold`; `DecompressionError` where the compressor fails or its stream
/// is too long for a frame. A reader under the same threshold finds the packet
/// in it.
pub fn send_packet(id: i32, payload: &[u8], threshold: i32) -> (r: Result<Vec<u8>, Error>)
    requires
        fits(id, payload@),
    ensures
        threshold < 0 || raw_packet(id, payload@).len() < threshold ==> r is Ok,
        match r {
            Ok(bytes) => frame_of(id, payload@, threshold) == Some(bytes@) && received(
                bytes@,
                threshold,
            ) == Ok::<((i32, Seq<u8>), nat), Error>(((id, payload@), bytes@.len())),
            Err(e) => e == Error::DecompressionError && frame_of(id, payload@, threshold) is None,
        },
{
    let body = match encode_body(id, payload, threshold) {
        Ok(body) => body,
        Err(e) => {
            return Err(e);
        },
    };
    proof {
        lemma_raw_packet(id, payload@);
        varint::lemma_round_trip(0, raw_packet(id, payload@));
    }
    if body.len() > frame::MAX_BODY {
        return Err(Error::DecompressionError);
    }
    let mut bytes: Vec<u8> = Vec::new();
    frame::write_frame(&mut bytes, body.as_slice());
    proof {
        assert(bytes@ =~= frame::framed(body@));
        frame::lemma_frame_round_trip(body@, Seq::empty());
        assert(bytes@ + Seq::<u8>::empty() =~= bytes@);
    }
    Ok(bytes)
}

/// The bytes of the one frame that carries the packet `(id, payload)` while
/// compression is off.
pub fn send_packet_raw(id: i32, payload: &[u8]) -> (bytes: Vec<u8>)
    requires
        fits(id, payload@),
    ensures
        bytes@ == frame::framed(raw_packet(id, payload@)),
        forall|threshold: i32| threshold < 0 ==> #[trigger] frame_of(id, payload@, threshold) == Some(
            bytes@,
        ),
{
    let mut raw: Vec<u8> = Vec::new();
    varint::write_varint(&mut raw, id);
    append(&mut raw, payload);
    proof {
        assert(raw@ =~= raw_packet(id, payload@));
        lemma_raw_packet(id, payload@);
    }
    let mut bytes: Vec<u8> = Vec::new();
    frame::write_frame(&mut bytes, raw.as_slice());
    proof {
        assert(bytes@ =~= frame::framed(raw@));
    }
    bytes
}

/// Reads the one frame at the head of `source` and the packet in it under
/// `threshold`: the packet and the number of bytes that the frame took.
pub fn receive_packet(source: &[u8], threshold: i32) -> (r: Result<((i32, Vec<u8>), usize), Error>)
    ensures
        match r {
            Ok(((id, payload), used)) => received(source@, threshold) == Ok::<
                ((i32, Seq<u8>), nat),
                Error,
            >(((id, payload@), used as nat)) && used <= source@.len(),
            Err(e) => received(source@, threshold) == Err::<((i32, Seq<u8>), nat), Error>(e),
        },
{
    let (body, used) = match frame::read_frame(source) {
        Ok(pair) => pair,
        Err(e) => {
            return Err(e);
        },
    };
    match decode_body(body.as_slice(), threshold) {
        Ok(packet) => Ok((packet, used)),
        Err(e) => Err(e),
    }
}

} // verus!
