//! The compact binary block codec: a two-byte version tag, the stored block
//! hash, the previous hash, the header, and the length-prefixed transaction
//! records. Reading reconstructs the block from its parts, requires the
//! header's `transactions_root` to commit to the records, and re-derives the
//! chaining commitment, so corruption of the stored hash, the header or the
//! records is caught.

use crate::block::{spec_block_hash_of, Block, BlockView};
use crate::bytes_le::{lemma_u32_le_round_trip, lemma_u64_from_le_inverse,
    lemma_u64_le_round_trip, push_u32_le, push_u64_le, read_u32_le, read_u64_le, u32_from_le,
    u32_le, u64_from_le, u64_le};
use crate::errors::BlockError;
use crate::hashing::BlockHash;
use crate::header::Header;
use crate::program::ProgramId;
use crate::transaction::{lemma_transactions_root_single_flip, lemma_tx_bits_kind_swap,
    spec_transactions_root, Deployment, Execution, Transaction, Transactions};
use vstd::prelude::*;

verus! {

/// A deployment record is tagged 0, an execution record 1; each record is a
/// tag byte and two 64-bit words.
pub open spec fn spec_encode_tx(t: Transaction) -> Seq<u8> {
    match t {
        Transaction::Deploy(d) => seq![0u8] + u64_le(d.id) + u64_le(d.program_id.value),
        Transaction::Execute(e) => seq![1u8] + u64_le(e.id) + u64_le(e.certificate),
    }
}

/// The concatenated records of a transaction list, in order.
pub open spec fn spec_encode_txs(s: Seq<Transaction>) -> Seq<u8>
    decreases s.len(),
{
    if s.len() == 0 {
        Seq::empty()
    } else {
        spec_encode_txs(s.drop_last()) + spec_encode_tx(s.last())
    }
}

/// Every record is 17 bytes long.
pub proof fn lemma_encode_txs_len(s: Seq<Transaction>)
    ensures
        spec_encode_txs(s).len() == 17 * s.len(),
    decreases s.len(),
{
    if s.len() > 0 {
        lemma_encode_txs_len(s.drop_last());
    }
}

/// The header's five fields, fixed-width and in declaration order.
pub open spec fn spec_encode_header(h: Header) -> Seq<u8> {
    u64_le(h.previous_state_root.value) + u64_le(h.transactions_root.value) + u32_le(h.height)
        + u64_le(h.round) + u64_le(h.timestamp)
}

/// The binary encoding of a block: version `0u16`, stored hash, previous
/// hash, header, record count, records.
pub open spec fn spec_encode_block(v: BlockView) -> Seq<u8> {
    seq![0u8, 0u8] + u64_le(v.block_hash.value) + u64_le(v.previous_hash.value)
        + spec_encode_header(v.header) + u64_le(v.transactions.len() as u64) + spec_encode_txs(
        v.transactions,
    )
}

/// The header whose five fields sit at `off`.
pub open spec fn spec_header_at(s: Seq<u8>, off: int) -> Header {
    Header {
        previous_state_root: BlockHash { value: u64_from_le(s.subrange(off, off + 8)) },
        transactions_root: BlockHash { value: u64_from_le(s.subrange(off + 8, off + 16)) },
        height: u32_from_le(s.subrange(off + 16, off + 20)),
        round: u64_from_le(s.subrange(off + 20, off + 28)),
        timestamp: u64_from_le(s.subrange(off + 28, off + 36)),
    }
}

/// The transaction record at `off`.
pub open spec fn spec_decode_tx_at(s: Seq<u8>, off: int) -> Result<Transaction, BlockError> {
    if s[off] == 0u8 {
        Ok(
            Transaction::Deploy(
                Deployment {
                    id: u64_from_le(s.subrange(off + 1, off + 9)),
                    program_id: ProgramId { value: u64_from_le(s.subrange(off + 9, off + 17)) },
                },
            ),
        )
    } else if s[off] == 1u8 {
        Ok(
            Transaction::Execute(
                Execution {
                    id: u64_from_le(s.subrange(off + 1, off + 9)),
                    certificate: u64_from_le(s.subrange(off + 9, off + 17)),
                },
            ),
        )
    } else {
        Err(BlockError::InvalidTransactionKind)
    }
}

/// The first `count` records, read left to right from byte 62.
pub open spec fn spec_decode_txs(s: Seq<u8>, count: int) -> Result<Seq<Transaction>, BlockError>
    decreases count,
{
    if count <= 0 {
        Ok(Seq::empty())
    } else {
        match spec_decode_txs(s, count - 1) {
            Err(e) => Err(e),
            Ok(pre) => match spec_decode_tx_at(s, 62 + 17 * (count - 1)) {
                Err(e) => Err(e),
                Ok(t) => Ok(pre.push(t)),
            },
        }
    }
}

/// Once some record up to `k` fails, every longer read fails the same way.
pub proof fn lemma_decode_txs_err_persists(s: Seq<u8>, k: int, n: int)
    requires
        0 <= k <= n,
        spec_decode_txs(s, k) is Err,
    ensures
        spec_decode_txs(s, n) == spec_decode_txs(s, k),
    decreases n - k,
{
    if n > k {
        lemma_decode_txs_err_persists(s, k, n - 1);
    }
}

/// What reading a byte-string as a block yields: the version tag must be
/// zero, the announced fields must all be present with nothing trailing, the
/// records must carry known kinds, the list must be non-empty, the header's
/// `transactions_root` must commit to the records, and the stored hash must
/// equal the chaining commitment re-derived from the parts.
pub open spec fn spec_decode_block(s: Seq<u8>) -> Result<BlockView, BlockError> {
    if s.len() < 2 {
        Err(BlockError::Truncated)
    } else if !(s[0] == 0u8 && s[1] == 0u8) {
        Err(BlockError::UnsupportedVersion)
    } else if s.len() < 62 {
        Err(BlockError::Truncated)
    } else {
        let stored = u64_from_le(s.subrange(2, 10));
        let previous_hash = BlockHash { value: u64_from_le(s.subrange(10, 18)) };
        let header = spec_header_at(s, 18);
        let count = u64_from_le(s.subrange(54, 62)) as int;
        if s.len() < 62 + 17 * count {
            Err(BlockError::Truncated)
        } else if s.len() > 62 + 17 * count {
            Err(BlockError::TrailingData)
        } else {
            match spec_decode_txs(s, count) {
                Err(e) => Err(e),
                Ok(txs) => {
                    if txs.len() == 0 {
                        Err(BlockError::EmptyTransactionSet)
                    } else if header.transactions_root != spec_transactions_root(txs) {
                        Err(BlockError::CorruptionError)
                    } else if spec_block_hash_of(previous_hash, header.spec_root()).value
                        != stored {
                        Err(BlockError::CorruptionError)
                    } else {
                        Ok(
                            BlockView {
                                block_hash: BlockHash { value: stored },
                                previous_hash,
                                header,
                                transactions: txs,
                            },
                        )
                    }
                },
            }
        }
    }
}

impl Block {
    /// Writes the block in the compact binary layout. The stored hash is
    /// written verbatim from the block's own field, not recomputed: every
    /// live block already carries the derived commitment.
    pub fn encode_binary(&self) -> (r: Vec<u8>)
        ensures
            r@ == spec_encode_block(self@),
    {
        let block_hash = self.hash();
        let previous_hash = self.previous_hash();
        let header = *self.header();
        let transactions = self.transactions();
        let mut out: Vec<u8> = Vec::new();
        // The version tag.
        out.push(0u8);
        out.push(0u8);
        push_u64_le(&mut out, block_hash.value);
        push_u64_le(&mut out, previous_hash.value);
        push_u64_le(&mut out, header.previous_state_root.value);
        push_u64_le(&mut out, header.transactions_root.value);
        push_u32_le(&mut out, header.height);
        push_u64_le(&mut out, header.round);
        push_u64_le(&mut out, header.timestamp);
        let count = transactions.len();
        push_u64_le(&mut out, count as u64);
        let ghost head = out@;
        let mut i: usize = 0;
        while i < count
            invariant
                i <= self@.transactions.len(),
                count == self@.transactions.len(),
                self@.transactions == transactions@,
                out@ == head + spec_encode_txs(self@.transactions.take(i as int)),
            decreases count - i,
        {
            let tx = *transactions.get(i);
            match tx {
                Transaction::Deploy(d) => {
                    out.push(0u8);
                    push_u64_le(&mut out, d.id);
                    push_u64_le(&mut out, d.program_id.value);
                },
                Transaction::Execute(e) => {
                    out.push(1u8);
                    push_u64_le(&mut out, e.id);
                    push_u64_le(&mut out, e.certificate);
                },
            }
            i = i + 1;
            proof {
                let txs = self@.transactions;
                assert(txs.take(i as int).drop_last() =~= txs.take(i - 1));
                assert(txs.take(i as int).last() == txs[i - 1]);
                assert(out@ =~= head + spec_encode_txs(txs.take(i as int)));
            }
        }
        proof {
            assert(self@.transactions.take(self@.transactions.len() as int)
                =~= self@.transactions);
            assert(out@ =~= spec_encode_block(self@));
        }
        out
    }

    /// Reads a block from the compact binary layout, reconstructing it from
    /// its parts and failing with `CorruptionError` whenever the stored hash
    /// and the re-derived chaining commitment disagree.
    #[verifier::loop_isolation(false)]
    pub fn decode_binary(bytes: &Vec<u8>) -> (r: Result<Block, BlockError>)
        ensures
            r matches Ok(b) ==> spec_decode_block(bytes@) == Ok::<BlockView, BlockError>(b@),
            r matches Err(e) ==> spec_decode_block(bytes@) == Err::<BlockView, BlockError>(e),
            r matches Ok(b) ==> b@.wf(),
    {
        let n = bytes.len();
        if n < 2 {
            return Err(BlockError::Truncated);
        }
        if !(bytes[0] == 0 && bytes[1] == 0) {
            return Err(BlockError::UnsupportedVersion);
        }
        if n < 62 {
            return Err(BlockError::Truncated);
        }
        let stored = read_u64_le(bytes, 2);
        let previous_hash = BlockHash { value: read_u64_le(bytes, 10) };
        let header = Header {
            previous_state_root: BlockHash { value: read_u64_le(bytes, 18) },
            transactions_root: BlockHash { value: read_u64_le(bytes, 26) },
            height: read_u32_le(bytes, 34),
            round: read_u64_le(bytes, 38),
            timestamp: read_u64_le(bytes, 46),
        };
        let count_word = read_u64_le(bytes, 54);
        proof {
            assert(header == spec_header_at(bytes@, 18));
        }
        let needed: u128 = 62 + (count_word as u128) * 17;
        if (n as u128) < needed {
            return Err(BlockError::Truncated);
        }
        if (n as u128) > needed {
            return Err(BlockError::TrailingData);
        }
        let count = count_word as usize;
        let mut txs: Vec<Transaction> = Vec::new();
        let mut i: usize = 0;
        while i < count
            invariant
                i <= count,
                count == count_word,
                n == bytes@.len(),
                bytes@.len() == 62 + 17 * count,
                spec_decode_txs(bytes@, i as int) == Ok::<Seq<Transaction>, BlockError>(txs@),
                txs@.len() == i,
            decreases count - i,
        {
            let off = 62 + i * 17;
            let tag = bytes[off];
            if tag == 0 {
                let id = read_u64_le(bytes, off + 1);
                let program = read_u64_le(bytes, off + 9);
                txs.push(Transaction::Deploy(Deployment { id, program_id: ProgramId { value: program } }));
            } else if tag == 1 {
                let id = read_u64_le(bytes, off + 1);
                let certificate = read_u64_le(bytes, off + 9);
                txs.push(Transaction::Execute(Execution { id, certificate }));
            } else {
                proof {
                    assert(spec_decode_tx_at(bytes@, 62 + 17 * (i as int)) == Err::<
                        Transaction,
                        BlockError,
                    >(BlockError::InvalidTransactionKind));
                    assert(spec_decode_txs(bytes@, i + 1) == Err::<Seq<Transaction>, BlockError>(
                        BlockError::InvalidTransactionKind,
                    ));
                    lemma_decode_txs_err_persists(bytes@, i + 1, count as int);
                    assert(spec_decode_txs(bytes@, count as int) == Err::<
                        Seq<Transaction>,
                        BlockError,
                    >(BlockError::InvalidTransactionKind));
                    assert(u64_from_le(bytes@.subrange(54, 62)) as int == count as int);
                    assert(spec_decode_block(bytes@) == Err::<BlockView, BlockError>(
                        BlockError::InvalidTransactionKind,
                    ));
                }
                return Err(BlockError::InvalidTransactionKind);
            }
            i = i + 1;
            proof {
                assert(spec_decode_txs(bytes@, i as int) == Ok::<Seq<Transaction>, BlockError>(
                    txs@,
                ));
            }
        }
        // Reconstruct the block from its parts and check the stored hash
        // against the re-derived commitment.
        let block = match Block::from_checked(
            BlockHash { value: stored },
            previous_hash,
            header,
            Transactions::new(txs),
        ) {
            Ok(block) => block,
            Err(e) => {
                return Err(e);
            },
        };
        proof {
            assert(spec_decode_block(bytes@) == Ok::<BlockView, BlockError>(block@));
        }
        Ok(block)
    }
}

/// The record bytes of entry `i` sit at offset `17 * i` of the encoded list.
pub proof fn lemma_encode_txs_subrange(t: Seq<Transaction>, i: int)
    requires
        0 <= i < t.len(),
    ensures
        spec_encode_txs(t).subrange(17 * i, 17 * i + 17) =~= spec_encode_tx(t[i]),
    decreases t.len(),
{
    lemma_encode_txs_len(t);
    lemma_encode_txs_len(t.drop_last());
    let pre = spec_encode_txs(t.drop_last());
    let rec = spec_encode_tx(t.last());
    assert(rec.len() == 17);
    if i == t.len() - 1 {
        assert(spec_encode_txs(t).subrange(17 * i, 17 * i + 17) =~= rec);
    } else {
        lemma_encode_txs_subrange(t.drop_last(), i);
        assert(spec_encode_txs(t).subrange(17 * i, 17 * i + 17) =~= pre.subrange(
            17 * i,
            17 * i + 17,
        ));
        assert(t.drop_last()[i] == t[i]);
    }
}

/// Reading `m` records back from their own encoding yields the first `m`
/// entries of the encoded list.
pub proof fn lemma_decode_encoded_txs(s: Seq<u8>, t: Seq<Transaction>, m: int)
    requires
        s.len() >= 62 + 17 * t.len(),
        s.subrange(62, 62 + 17 * t.len() as int) =~= spec_encode_txs(t),
        0 <= m <= t.len(),
    ensures
        spec_decode_txs(s, m) == Ok::<Seq<Transaction>, BlockError>(t.take(m)),
    decreases m,
{
    lemma_encode_txs_len(t);
    if m == 0 {
        assert(t.take(0) =~= Seq::<Transaction>::empty());
    } else {
        lemma_decode_encoded_txs(s, t, m - 1);
        let off = 62 + 17 * (m - 1);
        lemma_encode_txs_subrange(t, m - 1);
        let rec = spec_encode_tx(t[m - 1]);
        assert(s.subrange(off, off + 17) =~= spec_encode_txs(t).subrange(
            17 * (m - 1),
            17 * (m - 1) + 17,
        ));
        assert(s.subrange(off, off + 17) =~= rec);
        assert(s[off] == rec[0]);
        assert(s.subrange(off + 1, off + 9) =~= rec.subrange(1, 9));
        assert(s.subrange(off + 9, off + 17) =~= rec.subrange(9, 17));
        match t[m - 1] {
            Transaction::Deploy(d) => {
                assert(rec =~= seq![0u8] + u64_le(d.id) + u64_le(d.program_id.value));
                assert(rec[0] == 0u8);
                assert(rec.subrange(1, 9) =~= u64_le(d.id));
                assert(rec.subrange(9, 17) =~= u64_le(d.program_id.value));
                lemma_u64_le_round_trip(d.id);
                lemma_u64_le_round_trip(d.program_id.value);
                assert(spec_decode_tx_at(s, off) == Ok::<Transaction, BlockError>(t[m - 1]));
            },
            Transaction::Execute(e) => {
                assert(rec =~= seq![1u8] + u64_le(e.id) + u64_le(e.certificate));
                assert(rec[0] == 1u8);
                assert(rec.subrange(1, 9) =~= u64_le(e.id));
                assert(rec.subrange(9, 17) =~= u64_le(e.certificate));
                lemma_u64_le_round_trip(e.id);
                lemma_u64_le_round_trip(e.certificate);
                assert(spec_decode_tx_at(s, off) == Ok::<Transaction, BlockError>(t[m - 1]));
            },
        }
        assert(t.take(m - 1).push(t[m - 1]) =~= t.take(m));
    }
}

/// The fields of an encoded block parse back to the encoded values: the
/// subrange of each field equals that field's own encoding.
pub proof fn lemma_encode_block_fields(v: BlockView)
    requires
        v.transactions.len() <= 0xffff_ffff_ffff_ffff,
    ensures
        spec_encode_block(v).len() == 62 + 17 * v.transactions.len(),
        spec_encode_block(v)[0] == 0u8,
        spec_encode_block(v)[1] == 0u8,
        spec_encode_block(v).subrange(2, 10) =~= u64_le(v.block_hash.value),
        spec_encode_block(v).subrange(10, 18) =~= u64_le(v.previous_hash.value),
        spec_header_at(spec_encode_block(v), 18) == v.header,
        u64_from_le(spec_encode_block(v).subrange(54, 62)) == v.transactions.len() as u64,
        spec_encode_block(v).subrange(62, 62 + 17 * v.transactions.len() as int)
            =~= spec_encode_txs(v.transactions),
{
    let s = spec_encode_block(v);
    lemma_encode_txs_len(v.transactions);
    assert(spec_encode_header(v.header).len() == 36);
    assert(s.subrange(18, 26) =~= u64_le(v.header.previous_state_root.value));
    assert(s.subrange(26, 34) =~= u64_le(v.header.transactions_root.value));
    assert(s.subrange(34, 38) =~= u32_le(v.header.height));
    assert(s.subrange(38, 46) =~= u64_le(v.header.round));
    assert(s.subrange(46, 54) =~= u64_le(v.header.timestamp));
    lemma_u64_le_round_trip(v.header.previous_state_root.value);
    lemma_u64_le_round_trip(v.header.transactions_root.value);
    lemma_u32_le_round_trip(v.header.height);
    lemma_u64_le_round_trip(v.header.round);
    lemma_u64_le_round_trip(v.header.timestamp);
    assert(spec_header_at(s, 18) == v.header);
    assert(s.subrange(54, 62) =~= u64_le(v.transactions.len() as u64));
    lemma_u64_le_round_trip(v.transactions.len() as u64);
}

/// Round-trip: decoding the binary encoding of any well-formed block yields
/// the block back, field for field.
pub proof fn lemma_binary_round_trip(v: BlockView)
    requires
        v.wf(),
        v.spec_committed(),
        v.transactions.len() <= 0xffff_ffff_ffff_ffff,
    ensures
        spec_decode_block(spec_encode_block(v)) == Ok::<BlockView, BlockError>(v),
{
    let s = spec_encode_block(v);
    let k = v.transactions.len() as int;
    lemma_encode_block_fields(v);
    lemma_u64_le_round_trip(v.block_hash.value);
    lemma_u64_le_round_trip(v.previous_hash.value);
    lemma_decode_encoded_txs(s, v.transactions, k);
    assert(v.transactions.take(k) =~= v.transactions);
    assert(spec_decode_block(s) == Ok::<BlockView, BlockError>(v));
}

/// Corruption detection at the stored-hash field: changing any of the bytes
/// that carry the stored hash of an encoded well-formed block, while leaving
/// the rest of the encoding alone, makes decoding fail with
/// `CorruptionError` rather than yield a block.
pub proof fn lemma_binary_detects_hash_corruption(v: BlockView, s2: Seq<u8>)
    requires
        v.wf(),
        v.spec_committed(),
        v.transactions.len() <= 0xffff_ffff_ffff_ffff,
        s2.len() == spec_encode_block(v).len(),
        forall|j: int|
            0 <= j < s2.len() && !(2 <= j < 10) ==> s2[j] == spec_encode_block(v)[j],
        s2.subrange(2, 10) != spec_encode_block(v).subrange(2, 10),
    ensures
        spec_decode_block(s2) == Err::<BlockView, BlockError>(BlockError::CorruptionError),
{
    let s = spec_encode_block(v);
    let k = v.transactions.len() as int;
    lemma_encode_block_fields(v);
    assert(s2.subrange(10, 18) =~= s.subrange(10, 18));
    assert(s2.subrange(18, 26) =~= s.subrange(18, 26));
    assert(s2.subrange(26, 34) =~= s.subrange(26, 34));
    assert(s2.subrange(34, 38) =~= s.subrange(34, 38));
    assert(s2.subrange(38, 46) =~= s.subrange(38, 46));
    assert(s2.subrange(46, 54) =~= s.subrange(46, 54));
    assert(s2.subrange(54, 62) =~= s.subrange(54, 62));
    assert(spec_header_at(s2, 18) == spec_header_at(s, 18));
    assert(s2.subrange(62, 62 + 17 * k) =~= s.subrange(62, 62 + 17 * k));
    lemma_decode_encoded_txs(s2, v.transactions, k);
    assert(v.transactions.take(k) =~= v.transactions);
    lemma_u64_le_round_trip(v.previous_hash.value);
    // The tampered stored hash cannot read back as the derived commitment:
    // reading eight bytes is injective.
    let stored2 = u64_from_le(s2.subrange(2, 10));
    if stored2 == v.block_hash.value {
        lemma_u64_from_le_inverse(s2.subrange(2, 10));
        assert(s2.subrange(2, 10) =~= u64_le(stored2));
        assert(s2.subrange(2, 10) =~= s.subrange(2, 10));
    }
    assert(stored2 != v.block_hash.value);
    assert(spec_decode_block(s2) == Err::<BlockView, BlockError>(BlockError::CorruptionError));
}


/// Replacing one transaction of a list changes the encoded records only
/// within that record's 17 bytes.
pub proof fn lemma_encode_txs_update(t1: Seq<Transaction>, t2: Seq<Transaction>, i: int)
    requires
        t1.len() == t2.len(),
        0 <= i < t1.len(),
        forall|j: int| 0 <= j < t1.len() && j != i ==> t1[j] == t2[j],
    ensures
        forall|idx: int|
            0 <= idx < 17 * t1.len() && !(17 * i <= idx < 17 * i + 17) ==> spec_encode_txs(
                t1,
            )[idx] == spec_encode_txs(t2)[idx],
    decreases t1.len(),
{
    lemma_encode_txs_len(t1);
    lemma_encode_txs_len(t2);
    lemma_encode_txs_len(t1.drop_last());
    lemma_encode_txs_len(t2.drop_last());
    if i == t1.len() - 1 {
        assert(t1.drop_last() =~= t2.drop_last());
    } else {
        assert(t1.drop_last()[i] == t1[i]);
        assert(t2.drop_last()[i] == t2[i]);
        lemma_encode_txs_update(t1.drop_last(), t2.drop_last(), i);
        assert(t1.last() == t2.last());
    }
}

/// Tampering with the record bytes of an encoded well-formed block — so
/// that they read back as a list whose commitment differs — makes decoding
/// fail with `CorruptionError`: the header's `transactions_root` no longer
/// commits to the records.
pub proof fn lemma_binary_detects_record_tampering(
    v: BlockView,
    s2: Seq<u8>,
    t2: Seq<Transaction>,
)
    requires
        v.wf(),
        v.spec_committed(),
        v.transactions.len() <= 0xffff_ffff_ffff_ffff,
        t2.len() == v.transactions.len(),
        spec_transactions_root(t2) != spec_transactions_root(v.transactions),
        s2.len() == spec_encode_block(v).len(),
        forall|j: int| 0 <= j < 62 ==> s2[j] == spec_encode_block(v)[j],
        s2.subrange(62, 62 + 17 * t2.len() as int) =~= spec_encode_txs(t2),
    ensures
        spec_decode_block(s2) == Err::<BlockView, BlockError>(BlockError::CorruptionError),
{
    let s = spec_encode_block(v);
    let k = v.transactions.len() as int;
    lemma_encode_block_fields(v);
    assert(s2.subrange(2, 10) =~= s.subrange(2, 10));
    assert(s2.subrange(10, 18) =~= s.subrange(10, 18));
    assert(s2.subrange(18, 26) =~= s.subrange(18, 26));
    assert(s2.subrange(26, 34) =~= s.subrange(26, 34));
    assert(s2.subrange(34, 38) =~= s.subrange(34, 38));
    assert(s2.subrange(38, 46) =~= s.subrange(38, 46));
    assert(s2.subrange(46, 54) =~= s.subrange(46, 54));
    assert(s2.subrange(54, 62) =~= s.subrange(54, 62));
    assert(spec_header_at(s2, 18) == spec_header_at(s, 18));
    lemma_u64_le_round_trip(v.transactions.len() as u64);
    lemma_decode_encoded_txs(s2, t2, k);
    assert(t2.take(k) =~= t2);
    assert(spec_header_at(s2, 18).transactions_root != spec_transactions_root(t2));
    assert(spec_decode_block(s2) == Err::<BlockView, BlockError>(BlockError::CorruptionError));
}

/// Flipping the low bit of a deployment record's kind tag — which turns it
/// into an execution record with the same payload words — is caught: the
/// decoded list's commitment no longer matches the header's
/// `transactions_root`.
pub proof fn lemma_binary_detects_kind_flip(v: BlockView, s2: Seq<u8>, i: int)
    requires
        v.wf(),
        v.spec_committed(),
        v.transactions.len() <= 0xffff_ffff_ffff_ffff,
        0 <= i < v.transactions.len(),
        v.transactions[i] is Deploy,
        s2.len() == spec_encode_block(v).len(),
        forall|j: int|
            0 <= j < s2.len() && j != 62 + 17 * i ==> s2[j] == spec_encode_block(v)[j],
        s2[62 + 17 * i] == 1u8,
    ensures
        spec_decode_block(s2) == Err::<BlockView, BlockError>(BlockError::CorruptionError),
{
    let s = spec_encode_block(v);
    let t1 = v.transactions;
    let k = t1.len() as int;
    let d = t1[i]->Deploy_0;
    let swapped = Transaction::Execute(Execution { id: d.id, certificate: d.program_id.value });
    let t2 = t1.update(i, swapped);
    lemma_encode_block_fields(v);
    lemma_encode_txs_len(t1);
    lemma_encode_txs_len(t2);
    lemma_encode_txs_update(t1, t2, i);
    lemma_encode_txs_subrange(t1, i);
    lemma_encode_txs_subrange(t2, i);
    let rec1 = spec_encode_tx(t1[i]);
    let rec2 = spec_encode_tx(t2[i]);
    assert(rec2 =~= seq![1u8] + u64_le(d.id) + u64_le(d.program_id.value));
    assert forall|q: int| 1 <= q < 17 implies rec1[q] == rec2[q] by {
        assert(rec1 =~= seq![0u8] + u64_le(d.id) + u64_le(d.program_id.value));
    }
    // The tampered bytes are exactly the encoding of the swapped list.
    assert forall|idx: int| 0 <= idx < 17 * k implies s2.subrange(62, 62 + 17 * k)[idx]
        == spec_encode_txs(t2)[idx] by {
        assert(s2.subrange(62, 62 + 17 * k)[idx] == s2[62 + idx]);
        if idx == 17 * i {
            assert(spec_encode_txs(t2).subrange(17 * i, 17 * i + 17)[0] == rec2[0]);
            assert(rec2[0] == 1u8);
        } else if 17 * i < idx < 17 * i + 17 {
            assert(s2[62 + idx] == s[62 + idx]);
            assert(s.subrange(62, 62 + 17 * k)[idx] == s[62 + idx]);
            assert(spec_encode_txs(t1).subrange(17 * i, 17 * i + 17)[idx - 17 * i] == rec1[idx
                - 17 * i]);
            assert(spec_encode_txs(t2).subrange(17 * i, 17 * i + 17)[idx - 17 * i] == rec2[idx
                - 17 * i]);
        } else {
            assert(s2[62 + idx] == s[62 + idx]);
            assert(s.subrange(62, 62 + 17 * k)[idx] == s[62 + idx]);
        }
    }
    assert(s2.subrange(62, 62 + 17 * k) =~= spec_encode_txs(t2));
    // The swap changes the committed words in exactly the first position.
    lemma_tx_bits_kind_swap(d);
    assert(t2[i] == swapped);
    lemma_transactions_root_single_flip(t1, t2, i, 0);
    lemma_binary_detects_record_tampering(v, s2, t2);
}


/// Tampering with the header bytes of an encoded well-formed, committed
/// block — so that they read back as a header that no longer commits to the
/// records, or no longer chains to the stored hash — makes decoding fail
/// with `CorruptionError`. For header fields other than
/// `transactions_root` the second disjunct is the collision-resistance
/// assumption on the hash capability, stated as an explicit hypothesis as
/// in [`crate::block::lemma_verify_rejects_tampered_previous_hash`].
#[verifier::rlimit(100)]
pub proof fn lemma_binary_detects_header_tampering(v: BlockView, s2: Seq<u8>, h2: Header)
    requires
        v.wf(),
        v.spec_committed(),
        v.transactions.len() <= 0xffff_ffff_ffff_ffff,
        s2.len() == spec_encode_block(v).len(),
        forall|j: int|
            0 <= j < s2.len() && !(18 <= j < 54) ==> s2[j] == spec_encode_block(v)[j],
        s2.subrange(18, 54) =~= spec_encode_header(h2),
        h2.transactions_root != spec_transactions_root(v.transactions) || spec_block_hash_of(
            v.previous_hash,
            h2.spec_root(),
        ) != v.block_hash,
    ensures
        spec_decode_block(s2) == Err::<BlockView, BlockError>(BlockError::CorruptionError),
{
    let s = spec_encode_block(v);
    let k = v.transactions.len() as int;
    lemma_encode_block_fields(v);
    assert(s2.subrange(2, 10) =~= s.subrange(2, 10));
    assert(s2.subrange(10, 18) =~= s.subrange(10, 18));
    assert(s2.subrange(54, 62) =~= s.subrange(54, 62));
    assert(s2.subrange(62, 62 + 17 * k) =~= s.subrange(62, 62 + 17 * k));
    lemma_u64_le_round_trip(v.block_hash.value);
    lemma_u64_le_round_trip(v.previous_hash.value);
    lemma_u64_le_round_trip(v.transactions.len() as u64);
    // The tampered header bytes read back as `h2`, field for field.
    let hseq = spec_encode_header(h2);
    assert(hseq.subrange(0, 8) =~= u64_le(h2.previous_state_root.value));
    assert(hseq.subrange(8, 16) =~= u64_le(h2.transactions_root.value));
    assert(hseq.subrange(16, 20) =~= u32_le(h2.height));
    assert(hseq.subrange(20, 28) =~= u64_le(h2.round));
    assert(hseq.subrange(28, 36) =~= u64_le(h2.timestamp));
    assert(s2.subrange(18, 26) =~= hseq.subrange(0, 8));
    assert(s2.subrange(26, 34) =~= hseq.subrange(8, 16));
    assert(s2.subrange(34, 38) =~= hseq.subrange(16, 20));
    assert(s2.subrange(38, 46) =~= hseq.subrange(20, 28));
    assert(s2.subrange(46, 54) =~= hseq.subrange(28, 36));
    lemma_u64_le_round_trip(h2.previous_state_root.value);
    lemma_u64_le_round_trip(h2.transactions_root.value);
    lemma_u32_le_round_trip(h2.height);
    lemma_u64_le_round_trip(h2.round);
    lemma_u64_le_round_trip(h2.timestamp);
    assert(spec_header_at(s2, 18) == h2);
    lemma_decode_encoded_txs(s2, v.transactions, k);
    assert(v.transactions.take(k) =~= v.transactions);
    assert(spec_decode_block(s2) == Err::<BlockView, BlockError>(BlockError::CorruptionError));
}

/// Changing the bytes that carry the header's `transactions_root` in an
/// encoded well-formed, committed block — by a single bit or otherwise —
/// makes decoding fail with `CorruptionError`, unconditionally: the read
/// header no longer commits to the records.
pub proof fn lemma_binary_detects_transactions_root_corruption(v: BlockView, s2: Seq<u8>)
    requires
        v.wf(),
        v.spec_committed(),
        v.transactions.len() <= 0xffff_ffff_ffff_ffff,
        s2.len() == spec_encode_block(v).len(),
        forall|j: int|
            0 <= j < s2.len() && !(26 <= j < 34) ==> s2[j] == spec_encode_block(v)[j],
        s2.subrange(26, 34) != spec_encode_block(v).subrange(26, 34),
    ensures
        spec_decode_block(s2) == Err::<BlockView, BlockError>(BlockError::CorruptionError),
{
    let s = spec_encode_block(v);
    lemma_encode_block_fields(v);
    let h2 = Header {
        transactions_root: BlockHash { value: u64_from_le(s2.subrange(26, 34)) },
        ..v.header
    };
    assert(s.subrange(18, 26) =~= u64_le(v.header.previous_state_root.value));
    assert(s.subrange(26, 34) =~= u64_le(v.header.transactions_root.value));
    assert(s.subrange(34, 38) =~= u32_le(v.header.height));
    assert(s.subrange(38, 46) =~= u64_le(v.header.round));
    assert(s.subrange(46, 54) =~= u64_le(v.header.timestamp));
    lemma_u64_from_le_inverse(s2.subrange(26, 34));
    assert(s2.subrange(18, 26) =~= s.subrange(18, 26));
    assert(s2.subrange(34, 38) =~= s.subrange(34, 38));
    assert(s2.subrange(38, 46) =~= s.subrange(38, 46));
    assert(s2.subrange(46, 54) =~= s.subrange(46, 54));
    assert(s2.subrange(26, 34) =~= u64_le(h2.transactions_root.value));
    assert(s2.subrange(18, 54) =~= spec_encode_header(h2));
    // The read word differs from the committed root: reading eight bytes is
    // injective, so equal words would mean equal bytes.
    if h2.transactions_root == v.header.transactions_root {
        lemma_u64_le_round_trip(v.header.transactions_root.value);
        assert(s2.subrange(26, 34) =~= s.subrange(26, 34));
    }
    assert(h2.transactions_root != spec_transactions_root(v.transactions));
    lemma_binary_detects_header_tampering(v, s2, h2);
}

} // verus!
