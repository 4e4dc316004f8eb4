//! Frames: a length as a variable-length integer, then that many bytes.

use crate::bytes::append;
use crate::error::Error;
use crate::varint;
use vstd::prelude::*;
use vstd::slice::slice_subrange;
use vstd::slice::slice_to_vec;

verus! {

/// The longest body a frame can announce.
pub const MAX_BODY: usize = 0x7fff_ffff;

/// The bytes of the frame that carries `body`.
pub open spec fn framed(body: Seq<u8>) -> Seq<u8> {
    varint::encoding(body.len() as i32) + body
}

/// The number of bytes in the body of a frame whose length field reads
/// `announced`: a negative number is no length.
pub open spec fn body_len(announced: i32) -> Result<nat, Error> {
    if announced < 0 {
        Err(Error::ProtocolDecodeError)
    } else {
        Ok(announced as nat)
    }
}

/// The number of bytes to read for the body of a frame whose length field
/// reads `announced`.
pub fn body_length(announced: i32) -> (r: Result<usize, Error>)
    ensures
        match r {
            Ok(n) => body_len(announced) == Ok::<nat, Error>(n as nat),
            Err(e) => body_len(announced) == Err::<nat, Error>(e),
        },
{
    if announced < 0 {
        Err(Error::ProtocolDecodeError)
    } else {
        Ok(announced as usize)
    }
}

/// The body of the frame at the head of `bytes` and the number of bytes the
/// whole frame takes, or why there is no frame: its length does not decode, is
/// negative, or is more than what follows it.
pub open spec fn frame_at(bytes: Seq<u8>) -> Result<(Seq<u8>, nat), Error> {
    match varint::decoding(bytes) {
        None => Err(Error::MalformedVarInt),
        Some((announced, used)) => match body_len(announced) {
            Err(e) => Err(e),
            Ok(len) => if bytes.len() - used < len {
                Err(Error::TruncatedFrame)
            } else {
                Ok((bytes.subrange(used as int, (used + len) as int), used + len))
            },
        },
    }
}

/// Reading a written frame gives its body back, whatever follows the frame,
/// and stops at the frame's end.
pub proof fn lemma_frame_round_trip(body: Seq<u8>, tail: Seq<u8>)
    requires
        body.len() <= MAX_BODY,
    ensures
        frame_at(framed(body) + tail) == Ok::<(Seq<u8>, nat), Error>(
            (body, framed(body).len()),
        ),
{
    let len = body.len() as i32;
    let head = varint::encoding(len);
    let bytes = framed(body) + tail;
    assert(bytes =~= head + (body + tail));
    varint::lemma_round_trip(len, body + tail);
    assert(bytes.subrange(head.len() as int, head.len() + len) =~= body);
}

/// Appends the frame that carries `body` to `sink`.
pub fn write_frame(sink: &mut Vec<u8>, body: &[u8])
    requires
        body@.len() <= MAX_BODY,
    ensures
        final(sink)@ == old(sink)@ + framed(body@),
{
    varint::write_varint(sink, body.len() as i32);
    append(sink, body);
    proof {
        assert(sink@ =~= old(sink)@ + framed(body@));
    }
}

/// Reads the frame at the head of `source`: its body and the number of bytes
/// the frame took.
pub fn read_frame(source: &[u8]) -> (r: Result<(Vec<u8>, usize), Error>)
    ensures
        match r {
            Ok((body, used)) => frame_at(source@) == Ok::<(Seq<u8>, nat), Error>(
                (body@, used as nat),
            ) && used <= source@.len(),
            Err(e) => frame_at(source@) == Err::<(Seq<u8>, nat), Error>(e),
        },
{
    let (len, used) = match varint::decode(source) {
        Ok(pair) => pair,
        Err(e) => {
            return Err(e);
        },
    };
    let len: usize = match body_length(len) {
        Ok(n) => n,
        Err(e) => {
            return Err(e);
        },
    };
    if source.len() - used < len {
        return Err(Error::TruncatedFrame);
    }
    let end: usize = used + len;
    let body = slice_to_vec(slice_subrange(source, used, end));
    Ok((body, end))
}

} // verus!
