//! The hash capability: a fixed-size, equality-comparable hash output with a
//! canonical zero value, and a deterministic hash over bit-strings used for
//! all chaining and integrity checks.
//!
//! The network's production hash is a collision-resistant function over
//! little-endian bit-strings. This module supplies the injected stand-in for
//! that capability: a deterministic rotate-and-mask mixing fold with the same
//! interface (bit-string in, fixed-size output out). Every contract in the
//! crate speaks of the fold through [`spec_hash_bits`], so the chaining and
//! integrity arguments do not depend on which mixing function stands here.

use vstd::prelude::*;

verus! {

/// Seed state of the bit-string fold.
pub const HASH_SEED: u64 = 0x7ee3_623a_03d1_9a6b;

/// Constant mixed in for a clear bit.
pub const HASH_MIX_ZERO: u64 = 0x8f3a_96c1_d2e4_b705;

/// Constant mixed in for a set bit; it differs from [`HASH_MIX_ZERO`] in the
/// lowest bit only, so two bit-strings of equal length that differ in a
/// single bit always fold to different outputs.
pub const HASH_MIX_ONE: u64 = 0x8f3a_96c1_d2e4_b704;

/// The opaque fixed-size output of the hash capability. Its canonical zero
/// value is the previous-hash sentinel of the genesis block.
#[derive(Clone, Copy, PartialEq, Eq, Structural, Debug)]
pub struct BlockHash {
    pub value: u64,
}

impl BlockHash {
    /// The canonical zero value.
    pub fn zero() -> (r: BlockHash)
        ensures
            r == BlockHash::spec_zero(),
    {
        BlockHash { value: 0 }
    }

    pub open spec fn spec_zero() -> BlockHash {
        BlockHash { value: 0 }
    }
}

impl Default for BlockHash {
    /// The default hash output is the canonical zero value.
    fn default() -> (r: BlockHash)
        ensures
            r == BlockHash::spec_zero(),
    {
        BlockHash { value: 0 }
    }
}

/// The little-endian bit-string of a 64-bit word.
pub open spec fn bits_le(x: u64) -> Seq<bool> {
    Seq::new(64, |i: int| (x >> i) & 1 == 1)
}

/// The little-endian bit-string of a 32-bit word.
pub open spec fn bits_le_u32(x: u32) -> Seq<bool> {
    Seq::new(32, |i: int| (x >> i) & 1 == 1)
}

/// One mixing step of the fold: rotate the state left by 13 and fold the bit
/// in through one of the two mixing constants.
pub open spec fn mix(h: u64, b: bool) -> u64 {
    ((h << 13) | (h >> 51)) ^ (if b {
        HASH_MIX_ONE
    } else {
        HASH_MIX_ZERO
    })
}

/// The state of the fold after consuming the whole bit-string, starting from
/// [`HASH_SEED`].
pub open spec fn spec_hash_bits(bits: Seq<bool>) -> u64
    decreases bits.len(),
{
    if bits.len() == 0 {
        HASH_SEED
    } else {
        mix(spec_hash_bits(bits.drop_last()), bits.last())
    }
}

/// Appends the little-endian bits of `x` to `out`.
pub fn push_bits_le(out: &mut Vec<bool>, x: u64)
    ensures
        final(out)@ == old(out)@ + bits_le(x),
{
    let mut i: usize = 0;
    while i < 64
        invariant
            i <= 64,
            out@ == old(out)@ + bits_le(x).take(i as int),
        decreases 64 - i,
    {
        out.push((x >> (i as u64)) & 1 == 1);
        i = i + 1;
        proof {
            assert(bits_le(x).take(i as int) =~= bits_le(x).take(i - 1).push(bits_le(x)[i - 1]));
        }
    }
    proof {
        assert(bits_le(x).take(64) =~= bits_le(x));
    }
}

/// Appends the little-endian bits of the 32-bit word `x` to `out`.
pub fn push_bits_le_u32(out: &mut Vec<bool>, x: u32)
    ensures
        final(out)@ == old(out)@ + bits_le_u32(x),
{
    let mut i: usize = 0;
    while i < 32
        invariant
            i <= 32,
            out@ == old(out)@ + bits_le_u32(x).take(i as int),
        decreases 32 - i,
    {
        out.push((x >> (i as u32)) & 1 == 1);
        i = i + 1;
        proof {
            assert(bits_le_u32(x).take(i as int) =~= bits_le_u32(x).take(i - 1).push(
                bits_le_u32(x)[i - 1],
            ));
        }
    }
    proof {
        assert(bits_le_u32(x).take(32) =~= bits_le_u32(x));
    }
}

/// Hashes a bit-string to a fixed-size output. Deterministic: equal
/// bit-strings always fold to the same output, on every call.
pub fn hash_bits(bits: &Vec<bool>) -> (r: BlockHash)
    ensures
        r.value == spec_hash_bits(bits@),
{
    let mut h: u64 = HASH_SEED;
    let mut i: usize = 0;
    while i < bits.len()
        invariant
            i <= bits@.len(),
            h == spec_hash_bits(bits@.take(i as int)),
        decreases bits@.len() - i,
    {
        let b = bits[i];
        h = ((h << 13u64) | (h >> 51u64)) ^ (if b {
            HASH_MIX_ONE
        } else {
            HASH_MIX_ZERO
        });
        i = i + 1;
        proof {
            assert(bits@.take(i as int).drop_last() =~= bits@.take(i - 1));
            assert(bits@.take(i as int).last() == bits@[i - 1]);
        }
    }
    proof {
        assert(bits@.take(bits@.len() as int) =~= bits@);
    }
    BlockHash { value: h }
}


/// For a fixed bit, the mixing step is injective in the state.
pub proof fn lemma_mix_state_injective(h1: u64, h2: u64, b: bool)
    requires
        mix(h1, b) == mix(h2, b),
    ensures
        h1 == h2,
{
    if b {
        assert((((h1 << 13) | (h1 >> 51)) ^ 0x8f3a_96c1_d2e4_b704u64) == (((h2 << 13) | (h2
            >> 51)) ^ 0x8f3a_96c1_d2e4_b704u64) ==> h1 == h2) by (bit_vector);
    } else {
        assert((((h1 << 13) | (h1 >> 51)) ^ 0x8f3a_96c1_d2e4_b705u64) == (((h2 << 13) | (h2
            >> 51)) ^ 0x8f3a_96c1_d2e4_b705u64) ==> h1 == h2) by (bit_vector);
    }
}

/// From any state, the two mixing constants lead to different states.
pub proof fn lemma_mix_bit_sensitive(h: u64)
    ensures
        mix(h, true) != mix(h, false),
{
    assert((((h << 13) | (h >> 51)) ^ 0x8f3a_96c1_d2e4_b704u64) != (((h << 13) | (h >> 51))
        ^ 0x8f3a_96c1_d2e4_b705u64) ) by (bit_vector);
}

/// Two bit-strings of equal length that differ in exactly one position fold
/// to different outputs: the fold detects every single-bit flip.
pub proof fn lemma_hash_bits_single_flip(s1: Seq<bool>, s2: Seq<bool>, i: int)
    requires
        s1.len() == s2.len(),
        0 <= i < s1.len(),
        s1[i] != s2[i],
        forall|j: int| 0 <= j < s1.len() && j != i ==> s1[j] == s2[j],
    ensures
        spec_hash_bits(s1) != spec_hash_bits(s2),
    decreases s1.len(),
{
    if i == s1.len() - 1 {
        assert(s1.drop_last() =~= s2.drop_last());
        lemma_mix_bit_sensitive(spec_hash_bits(s1.drop_last()));
    } else {
        lemma_hash_bits_single_flip(s1.drop_last(), s2.drop_last(), i);
        assert(s1.last() == s2.last());
        if spec_hash_bits(s1) == spec_hash_bits(s2) {
            lemma_mix_state_injective(
                spec_hash_bits(s1.drop_last()),
                spec_hash_bits(s2.drop_last()),
                s1.last(),
            );
        }
    }
}

} // verus!
