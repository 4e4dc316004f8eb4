//! A read position over the bytes of one packet, and the field readers that
//! every payload decoder is built from.

use crate::error::Error;
use crate::varint;
use vstd::prelude::*;
use vstd::slice::slice_subrange;
use vstd::slice::slice_to_vec;

verus! {

/// A buffer of bytes and the place up to which it has been read.
pub struct Cursor {
    data: Vec<u8>,
    pos: usize,
}

impl Cursor {
    #[verifier::type_invariant]
    spec fn in_bounds(self) -> bool {
        self.pos <= self.data@.len()
    }

    /// All the bytes, read or not.
    pub closed spec fn bytes(self) -> Seq<u8> {
        self.data@
    }

    /// How many bytes have been read.
    pub closed spec fn position(self) -> nat {
        self.pos as nat
    }

    /// The bytes still to be read.
    pub open spec fn remaining(self) -> Seq<u8> {
        self.bytes().skip(self.position() as int)
    }

    /// A cursor at the start of `data`.
    pub fn new(data: Vec<u8>) -> (c: Cursor)
        ensures
            c.bytes() == data@,
            c.position() == 0,
    {
        Cursor { data, pos: 0 }
    }

    /// The number of bytes read so far.
    pub fn pos(&self) -> (p: usize)
        ensures
            p == self.position(),
            p <= self.bytes().len(),
    {
        proof {
            use_type_invariant(self);
        }
        self.pos
    }

    /// Moves the cursor to `position`.
    pub fn seek(&mut self, position: usize)
        requires
            position <= old(self).bytes().len(),
        ensures
            final(self).bytes() == old(self).bytes(),
            final(self).position() == position,
    {
        self.pos = position;
    }

    /// The number of bytes still to be read.
    pub fn left(&self) -> (n: usize)
        ensures
            n == self.remaining().len(),
            n + self.position() == self.bytes().len(),
    {
        proof {
            use_type_invariant(self);
        }
        self.data.len() - self.pos
    }
}

/// Whether `after` is `before` moved on by `used` bytes.
pub open spec fn moved(before: Cursor, after: Cursor, used: nat) -> bool {
    &&& after.bytes() == before.bytes()
    &&& after.position() == before.position() + used
    &&& after.position() <= after.bytes().len()
}

/// A cursor that has moved on by `used` bytes has that many fewer to read.
pub proof fn lemma_advance(before: Cursor, after: Cursor, used: nat)
    requires
        moved(before, after, used),
    ensures
        after.remaining() == before.remaining().skip(used as int),
        used <= before.remaining().len(),
{
    assert(after.remaining() =~= before.remaining().skip(used as int));
}

/// The variable-length integer at the head of `bytes` and the number of
/// bytes it takes.
pub open spec fn varint_at(bytes: Seq<u8>) -> Result<(i32, nat), Error> {
    match varint::decoding(bytes) {
        Some(pair) => Ok(pair),
        None => Err(Error::MalformedVarInt),
    }
}

/// Reads one variable-length integer. On an error the cursor stays where it was.
pub fn read_varint_cursor(stream: &mut Cursor) -> (r: Result<i32, Error>)
    ensures
        final(stream).bytes() == old(stream).bytes(),
        final(stream).position() <= final(stream).bytes().len(),
        match r {
            Ok(v) => varint_at(old(stream).remaining()) matches Ok((value, used)) && v == value
                && moved(*old(stream), *final(stream), used),
            Err(e) => {
                &&& varint_at(old(stream).remaining()) == Err::<(i32, nat), Error>(e)
                &&& final(stream).position() == old(stream).position()
            },
        },
{
    proof {
        use_type_invariant(&*stream);
    }
    let rest = slice_subrange(stream.data.as_slice(), stream.pos, stream.data.len());
    proof {
        assert(rest@ =~= stream.remaining());
    }
    match varint::decode(rest) {
        Ok((v, used)) => {
            stream.pos = stream.pos + used;
            Ok(v)
        },
        Err(e) => Err(e),
    }
}

/// Reads exactly `buf_size` bytes. Where fewer are left, the answer is
/// `ProtocolDecodeError` and the cursor stays where it was.
pub fn read_array_fixed_cursor(stream: &mut Cursor, buf_size: usize) -> (r: Result<Vec<u8>, Error>)
    ensures
        final(stream).bytes() == old(stream).bytes(),
        match r {
            Ok(v) => buf_size <= old(stream).remaining().len() && v@ == old(
                stream,
            ).remaining().take(buf_size as int) && final(stream).position() == old(
                stream,
            ).position() + buf_size,
            Err(e) => e == Error::ProtocolDecodeError && buf_size > old(stream).remaining().len()
                && final(stream).position() == old(stream).position(),
        },
        final(stream).position() <= final(stream).bytes().len(),
{
    proof {
        use_type_invariant(&*stream);
    }
    if buf_size > stream.data.len() - stream.pos {
        return Err(Error::ProtocolDecodeError);
    }
    let end: usize = stream.pos + buf_size;
    let out = slice_to_vec(slice_subrange(stream.data.as_slice(), stream.pos, end));
    proof {
        assert(out@ =~= stream.remaining().take(buf_size as int));
    }
    stream.pos = end;
    Ok(out)
}

/// What a length-prefixed array at the head of `bytes` holds, and how many
/// bytes prefix and array take together: `Err` names why there is none.
pub open spec fn dynamic_array(bytes: Seq<u8>) -> Result<(Seq<u8>, nat), Error> {
    match varint::decoding(bytes) {
        None => Err(Error::MalformedVarInt),
        Some((len, used)) => if len < 0 || bytes.len() - used < len {
            Err(Error::ProtocolDecodeError)
        } else {
            Ok((bytes.subrange(used as int, used + len), (used + len) as nat))
        },
    }
}

/// Reads a length as a variable-length integer, then that many bytes. A
/// negative length, or one beyond what is left, is a `ProtocolDecodeError`.
/// On an error the cursor stays where it was.
pub fn read_array_dynamic_cursor(stream: &mut Cursor) -> (r: Result<Vec<u8>, Error>)
    ensures
        final(stream).bytes() == old(stream).bytes(),
        match r {
            Ok(v) => dynamic_array(old(stream).remaining()) matches Ok((body, used)) && v@ == body
                && final(stream).position() == old(stream).position() + used,
            Err(e) => dynamic_array(old(stream).remaining()) == Err::<(Seq<u8>, nat), Error>(e)
                && final(stream).position() == old(stream).position(),
        },
        final(stream).position() <= final(stream).bytes().len(),
{
    let start: usize = stream.pos();
    let len: i32 = match read_varint_cursor(stream) {
        Ok(v) => v,
        Err(e) => {
            return Err(e);
        },
    };
    if len < 0 {
        stream.pos = start;
        return Err(Error::ProtocolDecodeError);
    }
    let ghost used = stream.position() - start;
    let ghost whole = old(stream).remaining();
    proof {
        assert(stream.remaining() =~= whole.skip(used as int));
    }
    match read_array_fixed_cursor(stream, len as usize) {
        Ok(v) => {
            proof {
                assert(v@ =~= whole.subrange(used as int, used + len));
            }
            Ok(v)
        },
        Err(e) => {
            stream.pos = start;
            Err(e)
        },
    }
}

} // verus!
