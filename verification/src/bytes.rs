//! Small operations on byte buffers that the codec is built from.

use vstd::prelude::*;

verus! {

/// Appends `src` to `out`.
pub fn append(out: &mut Vec<u8>, src: &[u8])
    ensures
        final(out)@ == old(out)@ + src@,
{
    let mut i: usize = 0;
    proof {
        assert(out@ =~= old(out)@ + src@.take(0));
    }
    while i < src.len()
        invariant
            i <= src@.len(),
            out@ == old(out)@ + src@.take(i as int),
        decreases src@.len() - i,
    {
        out.push(src[i]);
        i = i + 1;
        proof {
            assert(out@ =~= old(out)@ + src@.take(i as int));
        }
    }
    proof {
        assert(src@.take(i as int) =~= src@);
    }
}

/// The index of the first `byte` in `hay`, if there is one.
pub fn find(hay: &[u8], byte: u8) -> (r: Option<usize>)
    ensures
        match r {
            Some(i) => i < hay@.len() && hay@[i as int] == byte && forall|k: int|
                0 <= k < i ==> hay@[k] != byte,
            None => forall|k: int| 0 <= k < hay@.len() ==> hay@[k] != byte,
        },
{
    let mut i: usize = 0;
    while i < hay.len()
        invariant
            i <= hay@.len(),
            forall|k: int| 0 <= k < i ==> hay@[k] != byte,
        decreases hay@.len() - i,
    {
        if hay[i] == byte {
            return Some(i);
        }
        i = i + 1;
    }
    None
}

/// The number that `bytes` spell in base 256, most significant byte first.
pub open spec fn big_endian(bytes: Seq<u8>) -> nat
    decreases bytes.len(),
{
    if bytes.len() == 0 {
        0
    } else {
        256 * big_endian(bytes.drop_last()) + bytes.last() as nat
    }
}

/// 256 to the power `k`.
pub open spec fn pow256(k: nat) -> nat
    decreases k,
{
    if k == 0 {
        1
    } else {
        256 * pow256((k - 1) as nat)
    }
}

/// A number spelt in `n` bytes is below 256 to the `n`.
pub proof fn lemma_big_endian_bound(bytes: Seq<u8>)
    ensures
        big_endian(bytes) < pow256(bytes.len()),
    decreases bytes.len(),
{
    if bytes.len() > 0 {
        lemma_big_endian_bound(bytes.drop_last());
    }
}

/// 256 to the power `k` grows with `k`.
pub proof fn lemma_pow256_grows(j: nat, k: nat)
    requires
        j <= k,
    ensures
        pow256(j) <= pow256(k),
    decreases k,
{
    if j < k {
        lemma_pow256_grows(j, (k - 1) as nat);
    }
}

/// 256 to the sixteenth is one more than the largest 128-bit number.
pub proof fn lemma_pow256_sixteen()
    ensures
        pow256(16) == 0x1_0000_0000_0000_0000_0000_0000_0000_0000,
{
    reveal_with_fuel(pow256, 17);
}

/// The 128-bit number that sixteen bytes spell, most significant byte first.
pub fn u128_from_be(bytes: &[u8]) -> (id: u128)
    requires
        bytes@.len() == 16,
    ensures
        id == big_endian(bytes@),
{
    let mut id: u128 = 0;
    let mut i: usize = 0;
    while i < 16
        invariant
            i <= 16,
            bytes@.len() == 16,
            id == big_endian(bytes@.take(i as int)),
        decreases 16 - i,
    {
        proof {
            let next = bytes@.take(i + 1);
            assert(next.drop_last() =~= bytes@.take(i as int));
            assert(next.last() == bytes@[i as int]);
            lemma_big_endian_bound(next);
            lemma_pow256_grows(next.len(), 16);
            lemma_pow256_sixteen();
        }
        id = id * 256 + bytes[i] as u128;
        i = i + 1;
    }
    proof {
        assert(bytes@.take(16) =~= bytes@);
    }
    id
}

} // verus!
