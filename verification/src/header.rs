//! The block header: a commitment to ledger state. Its interface is a
//! height, a root committing to all of its fields, a genesis predicate and a
//! validity predicate, plus both codecs.

use crate::hashing::{bits_le, bits_le_u32, hash_bits, push_bits_le, push_bits_le_u32,
    spec_hash_bits, BlockHash};
use vstd::prelude::*;

verus! {

/// A block header. The production header aggregates its fields through a
/// Merkle tree; here the root commitment is the hash capability's fold over
/// the concatenated little-endian bits of all fields, in declaration order.
#[derive(Clone, Copy, PartialEq, Eq, Structural, Debug)]
pub struct Header {
    /// The root of the ledger state before this block.
    pub previous_state_root: BlockHash,
    /// The root committing to the block's transactions.
    pub transactions_root: BlockHash,
    /// The height of the block in the chain.
    pub height: u32,
    /// The consensus round that produced the block.
    pub round: u64,
    /// The block's timestamp, in seconds.
    pub timestamp: u64,
}

/// The concatenated little-endian bits of all header fields.
pub open spec fn spec_header_bits(h: Header) -> Seq<bool> {
    bits_le(h.previous_state_root.value) + bits_le(h.transactions_root.value) + bits_le_u32(
        h.height,
    ) + bits_le(h.round) + bits_le(h.timestamp)
}

impl Header {
    /// The root committing to all header fields.
    pub open spec fn spec_root(self) -> BlockHash {
        BlockHash { value: spec_hash_bits(spec_header_bits(self)) }
    }

    /// A genesis header: height zero, round zero, timestamp zero.
    pub open spec fn spec_is_genesis(self) -> bool {
        self.height == 0 && self.round == 0 && self.timestamp == 0
    }

    /// The header capability's own well-formedness rule: a height-zero
    /// header must be a genesis header; any later header must come out of a
    /// live round with a positive timestamp.
    pub open spec fn spec_is_valid(self) -> bool {
        if self.height == 0 {
            self.spec_is_genesis()
        } else {
            self.round >= 1 && self.timestamp >= 1
        }
    }

    /// The fixed, canonical genesis header.
    pub fn genesis() -> (r: Header)
        ensures
            r == Header::spec_genesis(),
    {
        Header {
            previous_state_root: BlockHash { value: 0 },
            transactions_root: BlockHash { value: 0 },
            height: 0,
            round: 0,
            timestamp: 0,
        }
    }

    pub open spec fn spec_genesis() -> Header {
        Header {
            previous_state_root: BlockHash { value: 0 },
            transactions_root: BlockHash { value: 0 },
            height: 0,
            round: 0,
            timestamp: 0,
        }
    }

    /// Returns the height of the block this header belongs to.
    pub fn height(&self) -> (r: u32)
        ensures
            r == self.height,
    {
        self.height
    }

    /// Computes the root committing to all header fields.
    pub fn root(&self) -> (r: BlockHash)
        ensures
            r == self.spec_root(),
    {
        let mut bits: Vec<bool> = Vec::new();
        push_bits_le(&mut bits, self.previous_state_root.value);
        push_bits_le(&mut bits, self.transactions_root.value);
        push_bits_le_u32(&mut bits, self.height);
        push_bits_le(&mut bits, self.round);
        push_bits_le(&mut bits, self.timestamp);
        proof {
            assert(bits@ =~= spec_header_bits(*self));
        }
        hash_bits(&bits)
    }

    /// Decides the genesis predicate.
    pub fn is_genesis(&self) -> (r: bool)
        ensures
            r == self.spec_is_genesis(),
    {
        self.height == 0 && self.round == 0 && self.timestamp == 0
    }

    /// Decides the validity predicate.
    pub fn is_valid(&self) -> (r: bool)
        ensures
            r == self.spec_is_valid(),
    {
        if self.height == 0 {
            self.is_genesis()
        } else {
            self.round >= 1 && self.timestamp >= 1
        }
    }
}

} // verus!
