//! Little-endian byte encodings of fixed-width words, with their
//! round-trip lemmas. Both codecs are built on these.

use vstd::prelude::*;

verus! {

/// The 8 little-endian bytes of a 64-bit word.
pub open spec fn u64_le(x: u64) -> Seq<u8> {
    Seq::new(8, |i: int| (x >> (8 * i)) as u8)
}

/// The 4 little-endian bytes of a 32-bit word.
pub open spec fn u32_le(x: u32) -> Seq<u8> {
    Seq::new(4, |i: int| (x >> (8 * i)) as u8)
}

/// The 64-bit word read from 8 little-endian bytes.
pub open spec fn u64_from_le(s: Seq<u8>) -> u64
    recommends
        s.len() == 8,
{
    ((s[0] as u64) | ((s[1] as u64) << 8) | ((s[2] as u64) << 16) | ((s[3] as u64) << 24) | ((
    s[4] as u64) << 32) | ((s[5] as u64) << 40) | ((s[6] as u64) << 48) | ((s[7] as u64) << 56))
}

/// The 32-bit word read from 4 little-endian bytes.
pub open spec fn u32_from_le(s: Seq<u8>) -> u32
    recommends
        s.len() == 4,
{
    ((s[0] as u32) | ((s[1] as u32) << 8) | ((s[2] as u32) << 16) | ((s[3] as u32) << 24))
}

/// Reading back the little-endian bytes of a word yields the word.
pub proof fn lemma_u64_le_round_trip(x: u64)
    ensures
        u64_from_le(u64_le(x)) == x,
{
    assert((((x >> 0) as u8) as u64) | (((x >> 8) as u8 as u64) << 8) | (((x >> 16) as u8 as u64) << 16)
        | (((x >> 24) as u8 as u64) << 24) | (((x >> 32) as u8 as u64) << 32) | (((x >> 40) as u8
        as u64) << 40) | (((x >> 48) as u8 as u64) << 48) | (((x >> 56) as u8 as u64) << 56)
        == x) by (bit_vector);
}

/// Reading back the little-endian bytes of a 32-bit word yields the word.
pub proof fn lemma_u32_le_round_trip(x: u32)
    ensures
        u32_from_le(u32_le(x)) == x,
{
    assert((((x >> 0) as u8) as u32) | (((x >> 8) as u8 as u32) << 8) | (((x >> 16) as u8 as u32) << 16)
        | (((x >> 24) as u8 as u32) << 24) == x) by (bit_vector);
}

/// Writing back the word read from 8 bytes yields the same bytes: the
/// byte reading is injective.
pub proof fn lemma_u64_from_le_inverse(s: Seq<u8>)
    requires
        s.len() == 8,
    ensures
        u64_le(u64_from_le(s)) =~= s,
{
    let b0 = s[0];
    let b1 = s[1];
    let b2 = s[2];
    let b3 = s[3];
    let b4 = s[4];
    let b5 = s[5];
    let b6 = s[6];
    let b7 = s[7];
    let x = u64_from_le(s);
    assert(x == ((b0 as u64) | ((b1 as u64) << 8) | ((b2 as u64) << 16) | ((b3 as u64) << 24) | ((
    b4 as u64) << 32) | ((b5 as u64) << 40) | ((b6 as u64) << 48) | ((b7 as u64) << 56)));
    let y = (b0 as u64) | ((b1 as u64) << 8) | ((b2 as u64) << 16) | ((b3 as u64) << 24) | ((
    b4 as u64) << 32) | ((b5 as u64) << 40) | ((b6 as u64) << 48) | ((b7 as u64) << 56);
    assert(((y >> 0) as u8) == b0 && ((y >> 8) as u8) == b1 && ((y >> 16) as u8) == b2 && ((y >> 24)
        as u8) == b3 && ((y >> 32) as u8) == b4 && ((y >> 40) as u8) == b5 && ((y >> 48) as u8)
        == b6 && ((y >> 56) as u8) == b7) by (bit_vector)
        requires
            y == (b0 as u64) | ((b1 as u64) << 8) | ((b2 as u64) << 16) | ((b3 as u64) << 24) | ((
            b4 as u64) << 32) | ((b5 as u64) << 40) | ((b6 as u64) << 48) | ((b7 as u64) << 56),
    ;
    assert forall|i: int| 0 <= i < 8 implies u64_le(x)[i] == s[i] by {
        assert((x >> (8 * 0)) as u8 == b0 && (x >> (8 * 1)) as u8 == b1 && (x >> (8 * 2)) as u8
            == b2 && (x >> (8 * 3)) as u8 == b3 && (x >> (8 * 4)) as u8 == b4 && (x >> (8 * 5))
            as u8 == b5 && (x >> (8 * 6)) as u8 == b6 && (x >> (8 * 7)) as u8 == b7);
    }
}

/// Appends the little-endian bytes of `x` to `out`.
pub fn push_u64_le(out: &mut Vec<u8>, x: u64)
    ensures
        final(out)@ =~= old(out)@ + u64_le(x),
{
    out.push(x as u8);
    out.push((x >> 8u64) as u8);
    out.push((x >> 16u64) as u8);
    out.push((x >> 24u64) as u8);
    out.push((x >> 32u64) as u8);
    out.push((x >> 40u64) as u8);
    out.push((x >> 48u64) as u8);
    out.push((x >> 56u64) as u8);
    proof {
        assert(x >> (8 * 0) == x) by (bit_vector);
        assert(out@ =~= old(out)@ + u64_le(x));
    }
}

/// Appends the little-endian bytes of the 32-bit word `x` to `out`.
pub fn push_u32_le(out: &mut Vec<u8>, x: u32)
    ensures
        final(out)@ =~= old(out)@ + u32_le(x),
{
    out.push(x as u8);
    out.push((x >> 8u32) as u8);
    out.push((x >> 16u32) as u8);
    out.push((x >> 24u32) as u8);
    proof {
        assert(x >> (8 * 0) == x) by (bit_vector);
        assert(out@ =~= old(out)@ + u32_le(x));
    }
}

/// Reads the 64-bit word whose little-endian bytes sit at `pos`.
pub fn read_u64_le(s: &Vec<u8>, pos: usize) -> (r: u64)
    requires
        pos + 8 <= s@.len(),
    ensures
        r == u64_from_le(s@.subrange(pos as int, pos as int + 8)),
{
    let n = s.len();
    let r = (s[pos] as u64) | ((s[pos + 1] as u64) << 8u64) | ((s[pos + 2] as u64) << 16u64) | ((
    s[pos + 3] as u64) << 24u64) | ((s[pos + 4] as u64) << 32u64) | ((s[pos + 5] as u64) << 40u64)
        | ((s[pos + 6] as u64) << 48u64) | ((s[pos + 7] as u64) << 56u64);
    proof {
        let sub = s@.subrange(pos as int, pos as int + 8);
        assert(forall|i: int| 0 <= i < 8 ==> sub[i] == s@[pos + i]);
    }
    r
}

/// Reads the 32-bit word whose little-endian bytes sit at `pos`.
pub fn read_u32_le(s: &Vec<u8>, pos: usize) -> (r: u32)
    requires
        pos + 4 <= s@.len(),
    ensures
        r == u32_from_le(s@.subrange(pos as int, pos as int + 4)),
{
    let n = s.len();
    let r = (s[pos] as u32) | ((s[pos + 1] as u32) << 8u32) | ((s[pos + 2] as u32) << 16u32) | ((
    s[pos + 3] as u32) << 24u32);
    proof {
        let sub = s@.subrange(pos as int, pos as int + 4);
        assert(forall|i: int| 0 <= i < 4 ==> sub[i] == s@[pos + i]);
    }
    r
}

} // verus!
