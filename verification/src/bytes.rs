//! Little-endian views of byte sequences and small helpers for copying
//! ranges of bytes, shared by every layer of the decoder.
use vstd::prelude::*;

verus! {

/// The value of a byte sequence read as a little-endian unsigned integer.
pub open spec fn le_bytes_value(s: Seq<u8>) -> nat
    decreases s.len(),
{
    if s.len() == 0 {
        0
    } else {
        s[0] as nat + 256 * le_bytes_value(s.drop_first())
    }
}

/// 256 raised to the given power: the number of distinct values of that
/// many bytes.
pub open spec fn pow256(n: nat) -> nat
    decreases n,
{
    if n == 0 {
        1
    } else {
        256 * pow256((n - 1) as nat)
    }
}

/// A little-endian value fits in as many bytes as were read.
pub proof fn lemma_le_bytes_value_bound(s: Seq<u8>)
    ensures
        le_bytes_value(s) < pow256(s.len()),
    decreases s.len(),
{
    if s.len() == 0 {
    } else {
        lemma_le_bytes_value_bound(s.drop_first());
    }
}

/// The little-endian value of two explicit bytes.
pub proof fn lemma_le2(b0: u8, b1: u8)
    ensures
        le_bytes_value(seq![b0, b1]) == b0 as nat + 0x100 * b1 as nat,
{
    reveal_with_fuel(le_bytes_value, 3);
    assert(seq![b0, b1].drop_first() =~= seq![b1]);
    assert(seq![b1].drop_first() =~= Seq::<u8>::empty());
}

/// The little-endian value of four explicit bytes.
pub proof fn lemma_le4(b0: u8, b1: u8, b2: u8, b3: u8)
    ensures
        le_bytes_value(seq![b0, b1, b2, b3]) == b0 as nat + 0x100 * b1 as nat
            + 0x1_0000 * b2 as nat + 0x100_0000 * b3 as nat,
{
    reveal_with_fuel(le_bytes_value, 5);
    assert(seq![b0, b1, b2, b3].drop_first() =~= seq![b1, b2, b3]);
    assert(seq![b1, b2, b3].drop_first() =~= seq![b2, b3]);
    assert(seq![b2, b3].drop_first() =~= seq![b3]);
    assert(seq![b3].drop_first() =~= Seq::<u8>::empty());
}

/// The little-endian value of eight explicit bytes.
pub proof fn lemma_le8(b0: u8, b1: u8, b2: u8, b3: u8, b4: u8, b5: u8, b6: u8, b7: u8)
    ensures
        le_bytes_value(seq![b0, b1, b2, b3, b4, b5, b6, b7]) == b0 as nat + 0x100 * b1 as nat
            + 0x1_0000 * b2 as nat + 0x100_0000 * b3 as nat + 0x1_0000_0000 * b4 as nat
            + 0x100_0000_0000 * b5 as nat + 0x1_0000_0000_0000 * b6 as nat
            + 0x100_0000_0000_0000 * b7 as nat,
{
    reveal_with_fuel(le_bytes_value, 9);
    assert(seq![b0, b1, b2, b3, b4, b5, b6, b7].drop_first() =~= seq![b1, b2, b3, b4, b5, b6, b7]);
    assert(seq![b1, b2, b3, b4, b5, b6, b7].drop_first() =~= seq![b2, b3, b4, b5, b6, b7]);
    assert(seq![b2, b3, b4, b5, b6, b7].drop_first() =~= seq![b3, b4, b5, b6, b7]);
    assert(seq![b3, b4, b5, b6, b7].drop_first() =~= seq![b4, b5, b6, b7]);
    assert(seq![b4, b5, b6, b7].drop_first() =~= seq![b5, b6, b7]);
    assert(seq![b5, b6, b7].drop_first() =~= seq![b6, b7]);
    assert(seq![b6, b7].drop_first() =~= seq![b7]);
    assert(seq![b7].drop_first() =~= Seq::<u8>::empty());
}

/// Two adjacent ranges of one sequence concatenate to the enclosing range.
pub proof fn lemma_subrange_merge(s: Seq<u8>, a: int, b: int, c: int)
    requires
        0 <= a <= b <= c <= s.len(),
    ensures
        s.subrange(a, b) + s.subrange(b, c) == s.subrange(a, c),
{
    assert(s.subrange(a, b) + s.subrange(b, c) =~= s.subrange(a, c));
}

/// Reads two bytes at `pos` as a little-endian integer.
pub fn read_u16_le(s: &Vec<u8>, pos: usize) -> (r: u16)
    requires
        pos + 2 <= s@.len(),
    ensures
        r as nat == le_bytes_value(s@.subrange(pos as int, pos as int + 2)),
{
    proof {
        assert(s@.len() == s.len());
    }
    let b0 = s[pos] as u16;
    let b1 = s[pos + 1] as u16;
    let r = b0 + 0x100 * b1;
    proof {
        reveal_with_fuel(le_bytes_value, 4);
        let sub = s@.subrange(pos as int, pos as int + 2);
        assert(sub.drop_first() =~= s@.subrange(pos as int + 1, pos as int + 2));
        assert(sub.drop_first().drop_first() =~= Seq::<u8>::empty());
    }
    r
}

/// Reads four bytes at `pos` as a little-endian integer.
pub fn read_u32_le(s: &Vec<u8>, pos: usize) -> (r: u32)
    requires
        pos + 4 <= s@.len(),
    ensures
        r as nat == le_bytes_value(s@.subrange(pos as int, pos as int + 4)),
{
    proof {
        assert(s@.len() == s.len());
    }
    let b0 = s[pos] as u32;
    let b1 = s[pos + 1] as u32;
    let b2 = s[pos + 2] as u32;
    let b3 = s[pos + 3] as u32;
    let r = b0 + 0x100 * b1 + 0x1_0000 * b2 + 0x100_0000 * b3;
    proof {
        reveal_with_fuel(le_bytes_value, 6);
        let sub = s@.subrange(pos as int, pos as int + 4);
        let s1 = sub.drop_first();
        let s2 = s1.drop_first();
        let s3 = s2.drop_first();
        assert(s1 =~= s@.subrange(pos as int + 1, pos as int + 4));
        assert(s2 =~= s@.subrange(pos as int + 2, pos as int + 4));
        assert(s3 =~= s@.subrange(pos as int + 3, pos as int + 4));
        assert(s3.drop_first() =~= Seq::<u8>::empty());
    }
    r
}

/// Reads eight bytes at `pos` as a little-endian integer.
pub fn read_u64_le(s: &Vec<u8>, pos: usize) -> (r: u64)
    requires
        pos + 8 <= s@.len(),
    ensures
        r as nat == le_bytes_value(s@.subrange(pos as int, pos as int + 8)),
{
    proof {
        assert(s@.len() == s.len());
    }
    let b0 = s[pos] as u64;
    let b1 = s[pos + 1] as u64;
    let b2 = s[pos + 2] as u64;
    let b3 = s[pos + 3] as u64;
    let b4 = s[pos + 4] as u64;
    let b5 = s[pos + 5] as u64;
    let b6 = s[pos + 6] as u64;
    let b7 = s[pos + 7] as u64;
    let r = b0 + 0x100 * b1 + 0x1_0000 * b2 + 0x100_0000 * b3 + 0x1_0000_0000 * b4
        + 0x100_0000_0000 * b5 + 0x1_0000_0000_0000 * b6 + 0x100_0000_0000_0000 * b7;
    proof {
        reveal_with_fuel(le_bytes_value, 10);
        let sub = s@.subrange(pos as int, pos as int + 8);
        let s1 = sub.drop_first();
        let s2 = s1.drop_first();
        let s3 = s2.drop_first();
        let s4 = s3.drop_first();
        let s5 = s4.drop_first();
        let s6 = s5.drop_first();
        let s7 = s6.drop_first();
        assert(s1 =~= s@.subrange(pos as int + 1, pos as int + 8));
        assert(s2 =~= s@.subrange(pos as int + 2, pos as int + 8));
        assert(s3 =~= s@.subrange(pos as int + 3, pos as int + 8));
        assert(s4 =~= s@.subrange(pos as int + 4, pos as int + 8));
        assert(s5 =~= s@.subrange(pos as int + 5, pos as int + 8));
        assert(s6 =~= s@.subrange(pos as int + 6, pos as int + 8));
        assert(s7 =~= s@.subrange(pos as int + 7, pos as int + 8));
        assert(s7.drop_first() =~= Seq::<u8>::empty());
    }
    r
}

/// Appends `src[from..to]` to `dst`, byte for byte.
pub fn append_range(dst: &mut Vec<u8>, src: &Vec<u8>, from: usize, to: usize)
    requires
        from <= to <= src@.len(),
    ensures
        final(dst)@ == old(dst)@ + src@.subrange(from as int, to as int),
{
    let mut i = from;
    while i < to
        invariant
            from <= i <= to,
            dst@ == old(dst)@ + src@.subrange(from as int, i as int),
        decreases to - i,
    {
        dst.push(src[i]);
        proof {
            assert(dst@ =~= old(dst)@ + src@.subrange(from as int, i as int + 1));
        }
        i = i + 1;
    }
}

/// Copies `src[from..to]` into a fresh buffer.
pub fn copy_range(src: &Vec<u8>, from: usize, to: usize) -> (r: Vec<u8>)
    requires
        from <= to <= src@.len(),
    ensures
        r@ == src@.subrange(from as int, to as int),
{
    let mut r: Vec<u8> = Vec::new();
    append_range(&mut r, src, from, to);
    r
}

} // verus!
