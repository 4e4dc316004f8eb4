//! The variable-length integer of the wire format: a signed 32-bit value in
//! one to five bytes, seven data bits per byte, least significant group first,
//! the high bit of a byte set when another byte follows.

use crate::error::Error;
use vstd::prelude::*;

verus! {

/// The most bytes one encoded value takes.
pub const MAX_BYTES: usize = 5;

/// A signed 32-bit value read as the unsigned number with the same bits.
pub open spec fn unsigned_of(v: i32) -> nat {
    if v < 0 {
        (v + 0x1_0000_0000) as nat
    } else {
        v as nat
    }
}

/// The signed 32-bit value with the same low 32 bits as `n`.
pub open spec fn signed_of(n: nat) -> i32 {
    let low = n % 0x1_0000_0000;
    if low >= 0x8000_0000 {
        (low - 0x1_0000_0000) as i32
    } else {
        low as i32
    }
}

/// The bytes of a natural number: its base-128 digits from the lowest up,
/// each but the last with 128 added.
pub open spec fn encode_nat(n: nat) -> Seq<u8>
    decreases n,
{
    if n < 128 {
        seq![n as u8]
    } else {
        seq![(n % 128 + 128) as u8] + encode_nat(n / 128)
    }
}

/// The bytes that encode `v`.
pub open spec fn encoding(v: i32) -> Seq<u8> {
    encode_nat(unsigned_of(v))
}

/// Reads base-128 digits from the head of `bytes` until a byte below 128 ends
/// the number, over at most `budget` bytes. Gives the number and how many
/// bytes it took, or `None` when the bytes or the budget run out first.
pub open spec fn parse_groups(bytes: Seq<u8>, budget: nat) -> Option<(nat, nat)>
    decreases budget,
{
    if budget == 0 || bytes.len() == 0 {
        None
    } else if bytes[0] < 128 {
        Some((bytes[0] as nat, 1))
    } else {
        match parse_groups(bytes.skip(1), (budget - 1) as nat) {
            Some((rest, used)) => Some(((bytes[0] - 128) as nat + 128 * rest, used + 1)),
            None => None,
        }
    }
}

/// The value at the head of `bytes` and the number of bytes it takes, or
/// `None` where no byte among the first five ends it. Bits above the 32nd
/// are dropped.
pub open spec fn decoding(bytes: Seq<u8>) -> Option<(i32, nat)> {
    match parse_groups(bytes, MAX_BYTES as nat) {
        Some((n, used)) => Some((signed_of(n), used)),
        None => None,
    }
}

/// 128 to the power `k`.
pub open spec fn pow128(k: nat) -> nat
    decreases k,
{
    if k == 0 {
        1
    } else {
        128 * pow128((k - 1) as nat)
    }
}

/// An encoded number has at least one byte, and no more than `k` when it is
/// below 128 to the `k`.
pub proof fn lemma_encode_nat_len(n: nat, k: nat)
    requires
        k >= 1,
        n < pow128(k),
    ensures
        1 <= encode_nat(n).len() <= k,
    decreases k,
{
    if n >= 128 {
        assert(k >= 2) by {
            reveal_with_fuel(pow128, 2);
        }
        assert(n / 128 < pow128((k - 1) as nat));
        lemma_encode_nat_len(n / 128, (k - 1) as nat);
    }
}

/// Parsing what `encode_nat` wrote gives the number back and stops at its
/// last byte, whatever follows it.
pub proof fn lemma_parse_encode_nat(n: nat, tail: Seq<u8>, budget: nat)
    requires
        budget >= 1,
        n < pow128(budget),
    ensures
        parse_groups(encode_nat(n) + tail, budget) == Some((n, encode_nat(n).len())),
    decreases budget,
{
    let bytes = encode_nat(n) + tail;
    if n < 128 {
        assert(bytes[0] == n as u8);
    } else {
        assert(budget >= 2) by {
            reveal_with_fuel(pow128, 2);
        }
        let rest = encode_nat(n / 128);
        assert(bytes[0] == (n % 128 + 128) as u8);
        assert(bytes.skip(1) =~= rest + tail);
        assert(n / 128 < pow128((budget - 1) as nat));
        lemma_parse_encode_nat(n / 128, tail, (budget - 1) as nat);
    }
}

/// The unsigned reading of a 32-bit value is below 128 to the fifth, and the
/// signed reading of it is the value again.
pub proof fn lemma_unsigned_signed(v: i32)
    ensures
        unsigned_of(v) < pow128(5),
        unsigned_of(v) < 0x1_0000_0000,
        signed_of(unsigned_of(v)) == v,
{
    reveal_with_fuel(pow128, 6);
}

/// Decoding the encoding of `v`, followed by anything, gives `v` back and
/// takes exactly the encoding's bytes; an encoding has one to five bytes.
pub proof fn lemma_round_trip(v: i32, tail: Seq<u8>)
    ensures
        decoding(encoding(v) + tail) == Some((v, encoding(v).len())),
        1 <= encoding(v).len() <= MAX_BYTES,
{
    lemma_unsigned_signed(v);
    lemma_parse_encode_nat(unsigned_of(v), tail, 5);
    lemma_encode_nat_len(unsigned_of(v), 5);
}

/// A value takes no more bytes than there are, and one to five of them.
pub proof fn lemma_decoding_fits(bytes: Seq<u8>)
    ensures
        decoding(bytes) matches Some((_, used)) ==> 1 <= used <= MAX_BYTES && used <= bytes.len(),
{
    lemma_parse_groups_fits(bytes, MAX_BYTES as nat);
}

/// Parsing takes no more bytes than there are and than the budget allows.
pub proof fn lemma_parse_groups_fits(bytes: Seq<u8>, budget: nat)
    ensures
        parse_groups(bytes, budget) matches Some((_, used)) ==> 1 <= used <= budget && used
            <= bytes.len(),
    decreases budget,
{
    if budget > 0 && bytes.len() > 0 && bytes[0] >= 128 {
        lemma_parse_groups_fits(bytes.skip(1), (budget - 1) as nat);
    }
}

/// Zero is the single byte zero.
pub proof fn lemma_encoding_zero()
    ensures
        encoding(0) == seq![0u8],
{
}

/// Appends the encoding of `v` to `out`.
pub fn write_varint(out: &mut Vec<u8>, v: i32)
    ensures
        final(out)@ == old(out)@ + encoding(v),
{
    let mut rest: u32 = if v < 0 {
        (v as i64 + 0x1_0000_0000) as u32
    } else {
        v as u32
    };
    let ghost done: Seq<u8> = Seq::empty();
    proof {
        assert(out@ =~= old(out)@ + done);
    }
    while rest >= 128
        invariant
            out@ == old(out)@ + done,
            done + encode_nat(rest as nat) == encoding(v),
        decreases rest,
    {
        let byte: u8 = (rest % 128 + 128) as u8;
        out.push(byte);
        proof {
            let next = done.push(byte);
            assert(out@ =~= old(out)@ + next);
            assert(next + encode_nat((rest / 128) as nat) =~= done + encode_nat(rest as nat));
            done = next;
        }
        rest = rest / 128;
    }
    out.push(rest as u8);
    proof {
        assert(out@ =~= old(out)@ + (done + encode_nat(rest as nat)));
    }
}

/// The encoding of `v`, one to five bytes.
pub fn encode(v: i32) -> (out: Vec<u8>)
    ensures
        out@ == encoding(v),
        1 <= out@.len() <= MAX_BYTES,
{
    let mut out: Vec<u8> = Vec::new();
    write_varint(&mut out, v);
    proof {
        lemma_round_trip(v, Seq::empty());
        assert(out@ =~= encoding(v));
    }
    out
}

/// Reads the value at the head of `bytes`. Gives the value and the number of
/// bytes it took, one to five; `MalformedVarInt` where the first five bytes all
/// announce another one or the bytes end before one that does not.
pub fn decode(bytes: &[u8]) -> (r: Result<(i32, usize), Error>)
    ensures
        match r {
            Ok((v, used)) => decoding(bytes@) == Some((v, used as nat)) && 1 <= used <= MAX_BYTES
                && used <= bytes@.len(),
            Err(e) => e == Error::MalformedVarInt && decoding(bytes@) is None,
        },
{
    let mut acc: u64 = 0;
    let mut scale: u64 = 1;
    let mut i: usize = 0;
    proof {
        assert(bytes@.skip(0) =~= bytes@);
        match parse_groups(bytes@, 5) {
            Some((rest, used)) => {
                assert(0 + 1 * rest == rest);
            },
            None => {},
        }
    }
    while i < MAX_BYTES && i < bytes.len()
        invariant
            i <= MAX_BYTES,
            i <= bytes@.len(),
            scale == pow128(i as nat),
            scale <= 0x8_0000_0000,
            acc < scale,
            parse_groups(bytes@, 5) == (match parse_groups(bytes@.skip(i as int), (5 - i) as nat) {
                Some((rest, used)) => Some((acc as nat + scale as nat * rest, used + i as nat)),
                None => None,
            }),
        decreases MAX_BYTES - i,
    {
        let byte: u8 = bytes[i];
        let ghost here = bytes@.skip(i as int);
        proof {
            reveal_with_fuel(pow128, 6);
            assert(here[0] == byte);
            assert(here.skip(1) =~= bytes@.skip(i + 1));
        }
        if byte < 128 {
            assert(scale * byte <= 0x8_0000_0000 * 128) by (nonlinear_arith)
                requires
                    scale <= 0x8_0000_0000,
                    byte < 128,
            ;
            let total: u64 = acc + scale * (byte as u64);
            proof {
                assert(parse_groups(here, (5 - i) as nat) == Some((byte as nat, 1nat)));
            }
            let low: u64 = total % 0x1_0000_0000;
            let value: i32 = if low >= 0x8000_0000 {
                (low as i64 - 0x1_0000_0000) as i32
            } else {
                low as i32
            };
            return Ok((value, i + 1));
        }
        proof {
            let digit = (byte - 128) as nat;
            let inner = parse_groups(bytes@.skip(i + 1), (4 - i) as nat);
            assert(parse_groups(here, (5 - i) as nat) == (match inner {
                Some((rest, used)) => Some((digit + 128 * rest, used + 1)),
                None => None,
            }));
            if let Some((rest, used)) = inner {
                assert(acc as nat + scale as nat * (digit + 128 * rest) == (acc as nat + scale
                    as nat * digit) + (scale as nat * 128) * rest) by (nonlinear_arith);
            }
        }
        assert(scale * (byte - 128) <= scale * 127 && scale * (byte - 128) >= 0) by (nonlinear_arith)
            requires
                128 <= byte < 256,
                scale >= 0,
        ;
        assert(scale <= 0x1000_0000);
        acc = acc + scale * ((byte - 128) as u64);
        scale = scale * 128;
        i = i + 1;
    }
    Err(Error::MalformedVarInt)
}

} // verus!
