//! The structured-text block codec: a self-describing, field-named document
//! with the four keys `block_hash`, `previous_hash`, `header` and
//! `transactions`; hash and numeric values render as fixed-width lowercase
//! hexadecimal strings. Reading mirrors the binary path's integrity
//! re-derivation, so no decoder can produce a block whose stored and
//! recomputed hashes disagree.

use crate::block::{spec_block_hash_of, Block, BlockView};
use crate::errors::BlockError;
use crate::hashing::BlockHash;
use crate::header::Header;
use crate::hex::{all_hex, lemma_u32_hex_round_trip, lemma_u64_from_hex_inverse,
    lemma_u64_hex_round_trip, parse_u32_hex,
    parse_u64_hex, push_u32_hex, push_u64_hex, u32_from_hex, u32_hex, u64_from_hex, u64_hex};
use crate::program::ProgramId;
use crate::transaction::{spec_transactions_root, Deployment, Execution, Transaction,
    Transactions};
use vstd::prelude::*;

verus! {

/// The bytes of `{"block_hash":"`.
pub open spec fn spec_l1() -> Seq<u8> {
    seq![123u8, 34u8, 98u8, 108u8, 111u8, 99u8, 107u8, 95u8, 104u8, 97u8, 115u8, 104u8, 34u8, 58u8, 34u8]
}

/// Builds the literal [`spec_l1`] as a vector.
pub fn lit_l1() -> (r: Vec<u8>)
    ensures
        r@ == spec_l1(),
{
    let v: Vec<u8> = vec![123u8, 34u8, 98u8, 108u8, 111u8, 99u8, 107u8, 95u8, 104u8, 97u8, 115u8, 104u8, 34u8, 58u8, 34u8];
    proof {
        assert(v@ =~= spec_l1());
    }
    v
}

/// The bytes of `","previous_hash":"`.
pub open spec fn spec_l2() -> Seq<u8> {
    seq![34u8, 44u8, 34u8, 112u8, 114u8, 101u8, 118u8, 105u8, 111u8, 117u8, 115u8, 95u8, 104u8, 97u8, 115u8, 104u8, 34u8, 58u8, 34u8]
}

/// Builds the literal [`spec_l2`] as a vector.
pub fn lit_l2() -> (r: Vec<u8>)
    ensures
        r@ == spec_l2(),
{
    let v: Vec<u8> = vec![34u8, 44u8, 34u8, 112u8, 114u8, 101u8, 118u8, 105u8, 111u8, 117u8, 115u8, 95u8, 104u8, 97u8, 115u8, 104u8, 34u8, 58u8, 34u8];
    proof {
        assert(v@ =~= spec_l2());
    }
    v
}

/// The bytes of `","header":{"previous_state_root":"`.
pub open spec fn spec_l3() -> Seq<u8> {
    seq![34u8, 44u8, 34u8, 104u8, 101u8, 97u8, 100u8, 101u8, 114u8, 34u8, 58u8, 123u8, 34u8, 112u8, 114u8, 101u8, 118u8, 105u8, 111u8, 117u8, 115u8, 95u8, 115u8, 116u8, 97u8, 116u8, 101u8, 95u8, 114u8, 111u8, 111u8, 116u8, 34u8, 58u8, 34u8]
}

/// Builds the literal [`spec_l3`] as a vector.
pub fn lit_l3() -> (r: Vec<u8>)
    ensures
        r@ == spec_l3(),
{
    let v: Vec<u8> = vec![34u8, 44u8, 34u8, 104u8, 101u8, 97u8, 100u8, 101u8, 114u8, 34u8, 58u8, 123u8, 34u8, 112u8, 114u8, 101u8, 118u8, 105u8, 111u8, 117u8, 115u8, 95u8, 115u8, 116u8, 97u8, 116u8, 101u8, 95u8, 114u8, 111u8, 111u8, 116u8, 34u8, 58u8, 34u8];
    proof {
        assert(v@ =~= spec_l3());
    }
    v
}

/// The bytes of `","transactions_root":"`.
pub open spec fn spec_l4() -> Seq<u8> {
    seq![34u8, 44u8, 34u8, 116u8, 114u8, 97u8, 110u8, 115u8, 97u8, 99u8, 116u8, 105u8, 111u8, 110u8, 115u8, 95u8, 114u8, 111u8, 111u8, 116u8, 34u8, 58u8, 34u8]
}

/// Builds the literal [`spec_l4`] as a vector.
pub fn lit_l4() -> (r: Vec<u8>)
    ensures
        r@ == spec_l4(),
{
    let v: Vec<u8> = vec![34u8, 44u8, 34u8, 116u8, 114u8, 97u8, 110u8, 115u8, 97u8, 99u8, 116u8, 105u8, 111u8, 110u8, 115u8, 95u8, 114u8, 111u8, 111u8, 116u8, 34u8, 58u8, 34u8];
    proof {
        assert(v@ =~= spec_l4());
    }
    v
}

/// The bytes of `","height":"`.
pub open spec fn spec_l5() -> Seq<u8> {
    seq![34u8, 44u8, 34u8, 104u8, 101u8, 105u8, 103u8, 104u8, 116u8, 34u8, 58u8, 34u8]
}

/// Builds the literal [`spec_l5`] as a vector.
pub fn lit_l5() -> (r: Vec<u8>)
    ensures
        r@ == spec_l5(),
{
    let v: Vec<u8> = vec![34u8, 44u8, 34u8, 104u8, 101u8, 105u8, 103u8, 104u8, 116u8, 34u8, 58u8, 34u8];
    proof {
        assert(v@ =~= spec_l5());
    }
    v
}

/// The bytes of `","round":"`.
pub open spec fn spec_l6() -> Seq<u8> {
    seq![34u8, 44u8, 34u8, 114u8, 111u8, 117u8, 110u8, 100u8, 34u8, 58u8, 34u8]
}

/// Builds the literal [`spec_l6`] as a vector.
pub fn lit_l6() -> (r: Vec<u8>)
    ensures
        r@ == spec_l6(),
{
    let v: Vec<u8> = vec![34u8, 44u8, 34u8, 114u8, 111u8, 117u8, 110u8, 100u8, 34u8, 58u8, 34u8];
    proof {
        assert(v@ =~= spec_l6());
    }
    v
}

/// The bytes of `","timestamp":"`.
pub open spec fn spec_l7() -> Seq<u8> {
    seq![34u8, 44u8, 34u8, 116u8, 105u8, 109u8, 101u8, 115u8, 116u8, 97u8, 109u8, 112u8, 34u8, 58u8, 34u8]
}

/// Builds the literal [`spec_l7`] as a vector.
pub fn lit_l7() -> (r: Vec<u8>)
    ensures
        r@ == spec_l7(),
{
    let v: Vec<u8> = vec![34u8, 44u8, 34u8, 116u8, 105u8, 109u8, 101u8, 115u8, 116u8, 97u8, 109u8, 112u8, 34u8, 58u8, 34u8];
    proof {
        assert(v@ =~= spec_l7());
    }
    v
}

/// The bytes of `"},"transactions":[`.
pub open spec fn spec_l8() -> Seq<u8> {
    seq![34u8, 125u8, 44u8, 34u8, 116u8, 114u8, 97u8, 110u8, 115u8, 97u8, 99u8, 116u8, 105u8, 111u8, 110u8, 115u8, 34u8, 58u8, 91u8]
}

/// Builds the literal [`spec_l8`] as a vector.
pub fn lit_l8() -> (r: Vec<u8>)
    ensures
        r@ == spec_l8(),
{
    let v: Vec<u8> = vec![34u8, 125u8, 44u8, 34u8, 116u8, 114u8, 97u8, 110u8, 115u8, 97u8, 99u8, 116u8, 105u8, 111u8, 110u8, 115u8, 34u8, 58u8, 91u8];
    proof {
        assert(v@ =~= spec_l8());
    }
    v
}

/// The bytes of `{"kind":"`.
pub open spec fn spec_ra() -> Seq<u8> {
    seq![123u8, 34u8, 107u8, 105u8, 110u8, 100u8, 34u8, 58u8, 34u8]
}

/// Builds the literal [`spec_ra`] as a vector.
pub fn lit_ra() -> (r: Vec<u8>)
    ensures
        r@ == spec_ra(),
{
    let v: Vec<u8> = vec![123u8, 34u8, 107u8, 105u8, 110u8, 100u8, 34u8, 58u8, 34u8];
    proof {
        assert(v@ =~= spec_ra());
    }
    v
}

/// The bytes of `","id":"`.
pub open spec fn spec_rb() -> Seq<u8> {
    seq![34u8, 44u8, 34u8, 105u8, 100u8, 34u8, 58u8, 34u8]
}

/// Builds the literal [`spec_rb`] as a vector.
pub fn lit_rb() -> (r: Vec<u8>)
    ensures
        r@ == spec_rb(),
{
    let v: Vec<u8> = vec![34u8, 44u8, 34u8, 105u8, 100u8, 34u8, 58u8, 34u8];
    proof {
        assert(v@ =~= spec_rb());
    }
    v
}

/// The bytes of `","data":"`.
pub open spec fn spec_rc() -> Seq<u8> {
    seq![34u8, 44u8, 34u8, 100u8, 97u8, 116u8, 97u8, 34u8, 58u8, 34u8]
}

/// Builds the literal [`spec_rc`] as a vector.
pub fn lit_rc() -> (r: Vec<u8>)
    ensures
        r@ == spec_rc(),
{
    let v: Vec<u8> = vec![34u8, 44u8, 34u8, 100u8, 97u8, 116u8, 97u8, 34u8, 58u8, 34u8];
    proof {
        assert(v@ =~= spec_rc());
    }
    v
}

/// The bytes of `"}`.
pub open spec fn spec_rd() -> Seq<u8> {
    seq![34u8, 125u8]
}

/// Builds the literal [`spec_rd`] as a vector.
pub fn lit_rd() -> (r: Vec<u8>)
    ensures
        r@ == spec_rd(),
{
    let v: Vec<u8> = vec![34u8, 125u8];
    proof {
        assert(v@ =~= spec_rd());
    }
    v
}

/// The two closing bytes `]}` of the document.
pub open spec fn spec_end() -> Seq<u8> {
    seq![93u8, 125u8]
}

/// Appends a literal to the document.
pub fn emit_lit(out: &mut Vec<u8>, lit: &Vec<u8>)
    ensures
        final(out)@ == old(out)@ + lit@,
{
    let m = lit.len();
    let mut i: usize = 0;
    while i < m
        invariant
            i <= m,
            m == lit@.len(),
            out@ == old(out)@ + lit@.take(i as int),
        decreases m - i,
    {
        out.push(lit[i]);
        i = i + 1;
        proof {
            assert(lit@.take(i as int) =~= lit@.take(i - 1).push(lit@[i - 1]));
        }
    }
    proof {
        assert(lit@.take(m as int) =~= lit@);
    }
}

/// Decides whether the bytes at `pos` equal the literal.
pub fn match_lit(s: &Vec<u8>, pos: usize, lit: &Vec<u8>) -> (r: bool)
    requires
        pos + lit@.len() <= s@.len(),
    ensures
        r == (s@.subrange(pos as int, pos as int + lit@.len() as int) == lit@),
{
    let n = s.len();
    let m = lit.len();
    let ghost sub = s@.subrange(pos as int, pos as int + lit@.len() as int);
    let mut i: usize = 0;
    while i < m
        invariant
            i <= m,
            m == lit@.len(),
            pos + m <= n,
            n == s@.len(),
            sub == s@.subrange(pos as int, pos as int + lit@.len() as int),
            forall|j: int| 0 <= j < i ==> sub[j] == lit@[j],
        decreases m - i,
    {
        if s[pos + i] != lit[i] {
            proof {
                assert(sub[i as int] == s@[pos + i]);
            }
            return false;
        }
        i = i + 1;
        proof {
            assert(sub[i - 1] == s@[pos + i - 1]);
        }
    }
    proof {
        assert(sub =~= lit@);
    }
    true
}

/// The text record of one transaction: its kind (`d` for a deployment, `e`
/// for an execution), its identity, and its payload word.
pub open spec fn spec_encode_record(t: Transaction) -> Seq<u8> {
    match t {
        Transaction::Deploy(d) => spec_ra() + seq![100u8] + spec_rb() + u64_hex(d.id) + spec_rc()
            + u64_hex(d.program_id.value) + spec_rd(),
        Transaction::Execute(e) => spec_ra() + seq![101u8] + spec_rb() + u64_hex(e.id) + spec_rc()
            + u64_hex(e.certificate) + spec_rd(),
    }
}

/// The records of the list, comma-separated, in order.
pub open spec fn spec_encode_records(s: Seq<Transaction>) -> Seq<u8>
    decreases s.len(),
{
    if s.len() == 0 {
        Seq::empty()
    } else if s.len() == 1 {
        spec_encode_record(s[0])
    } else {
        spec_encode_records(s.drop_last()) + seq![44u8] + spec_encode_record(s.last())
    }
}

/// The text encoding of a block: the four named fields in order, the header
/// nested as its own object, the transactions as an array of records.
pub open spec fn spec_encode_text(v: BlockView) -> Seq<u8> {
    spec_l1() + u64_hex(v.block_hash.value) + spec_l2() + u64_hex(v.previous_hash.value)
        + spec_l3() + u64_hex(v.header.previous_state_root.value) + spec_l4() + u64_hex(
        v.header.transactions_root.value,
    ) + spec_l5() + u32_hex(v.header.height) + spec_l6() + u64_hex(v.header.round) + spec_l7()
        + u64_hex(v.header.timestamp) + spec_l8() + spec_encode_records(v.transactions)
        + spec_end()
}

/// The record read at `pos`: its shape, kind tag and digits are checked
/// segment by segment, left to right.
pub open spec fn spec_parse_record(s: Seq<u8>, pos: int) -> Result<Transaction, BlockError> {
    if pos + 62 > s.len() {
        Err(BlockError::Truncated)
    } else if s.subrange(pos, pos + 9) != spec_ra() {
        Err(BlockError::MalformedDocument)
    } else if !(s[pos + 9] == 100u8 || s[pos + 9] == 101u8) {
        Err(BlockError::InvalidTransactionKind)
    } else if s.subrange(pos + 10, pos + 18) != spec_rb() {
        Err(BlockError::MalformedDocument)
    } else if !all_hex(s.subrange(pos + 18, pos + 34)) {
        Err(BlockError::MalformedDocument)
    } else if s.subrange(pos + 34, pos + 44) != spec_rc() {
        Err(BlockError::MalformedDocument)
    } else if !all_hex(s.subrange(pos + 44, pos + 60)) {
        Err(BlockError::MalformedDocument)
    } else if s.subrange(pos + 60, pos + 62) != spec_rd() {
        Err(BlockError::MalformedDocument)
    } else {
        let id = u64_from_hex(s.subrange(pos + 18, pos + 34));
        let data = u64_from_hex(s.subrange(pos + 44, pos + 60));
        if s[pos + 9] == 100u8 {
            Ok(Transaction::Deploy(Deployment { id, program_id: ProgramId { value: data } }))
        } else {
            Ok(Transaction::Execute(Execution { id, certificate: data }))
        }
    }
}

/// The records read from `pos` up to and including the closing bracket:
/// each record is followed by a comma and another record, or by the
/// bracket.
pub open spec fn spec_parse_records(s: Seq<u8>, pos: int) -> Result<
    (Seq<Transaction>, int),
    BlockError,
>
    decreases s.len() - pos,
{
    match spec_parse_record(s, pos) {
        Err(e) => Err(e),
        Ok(tx) => {
            if pos + 63 > s.len() {
                Err(BlockError::Truncated)
            } else if s[pos + 62] == 93u8 {
                Ok((seq![tx], pos + 63))
            } else if s[pos + 62] == 44u8 {
                match spec_parse_records(s, pos + 63) {
                    Err(e) => Err(e),
                    Ok(p) => Ok((seq![tx] + p.0, p.1)),
                }
            } else {
                Err(BlockError::MalformedDocument)
            }
        },
    }
}

/// The transaction array read at `pos`: empty, or comma-separated records.
pub open spec fn spec_parse_tx_list(s: Seq<u8>, pos: int) -> Result<
    (Seq<Transaction>, int),
    BlockError,
> {
    if pos >= s.len() {
        Err(BlockError::Truncated)
    } else if s[pos] == 93u8 {
        Ok((Seq::empty(), pos + 1))
    } else {
        spec_parse_records(s, pos)
    }
}

/// What reading a document as a block yields: the exact key skeleton, valid
/// digits everywhere, known record kinds, a non-empty list, nothing after
/// the closing brace, and a stored hash that equals the re-derived chaining
/// commitment.
pub open spec fn spec_decode_text(s: Seq<u8>) -> Result<BlockView, BlockError> {
    if s.len() < 255 {
        Err(BlockError::Truncated)
    } else if s.subrange(0, 15) != spec_l1() {
        Err(BlockError::MalformedDocument)
    } else if !all_hex(s.subrange(15, 31)) {
        Err(BlockError::MalformedDocument)
    } else if s.subrange(31, 50) != spec_l2() {
        Err(BlockError::MalformedDocument)
    } else if !all_hex(s.subrange(50, 66)) {
        Err(BlockError::MalformedDocument)
    } else if s.subrange(66, 101) != spec_l3() {
        Err(BlockError::MalformedDocument)
    } else if !all_hex(s.subrange(101, 117)) {
        Err(BlockError::MalformedDocument)
    } else if s.subrange(117, 140) != spec_l4() {
        Err(BlockError::MalformedDocument)
    } else if !all_hex(s.subrange(140, 156)) {
        Err(BlockError::MalformedDocument)
    } else if s.subrange(156, 168) != spec_l5() {
        Err(BlockError::MalformedDocument)
    } else if !all_hex(s.subrange(168, 176)) {
        Err(BlockError::MalformedDocument)
    } else if s.subrange(176, 187) != spec_l6() {
        Err(BlockError::MalformedDocument)
    } else if !all_hex(s.subrange(187, 203)) {
        Err(BlockError::MalformedDocument)
    } else if s.subrange(203, 218) != spec_l7() {
        Err(BlockError::MalformedDocument)
    } else if !all_hex(s.subrange(218, 234)) {
        Err(BlockError::MalformedDocument)
    } else if s.subrange(234, 253) != spec_l8() {
        Err(BlockError::MalformedDocument)
    } else {
        let stored = u64_from_hex(s.subrange(15, 31));
        let previous_hash = BlockHash { value: u64_from_hex(s.subrange(50, 66)) };
        let header = Header {
            previous_state_root: BlockHash { value: u64_from_hex(s.subrange(101, 117)) },
            transactions_root: BlockHash { value: u64_from_hex(s.subrange(140, 156)) },
            height: u32_from_hex(s.subrange(168, 176)),
            round: u64_from_hex(s.subrange(187, 203)),
            timestamp: u64_from_hex(s.subrange(218, 234)),
        };
        match spec_parse_tx_list(s, 253) {
            Err(e) => Err(e),
            Ok(p) => {
                if p.1 >= s.len() {
                    Err(BlockError::Truncated)
                } else if s[p.1] != 125u8 {
                    Err(BlockError::MalformedDocument)
                } else if p.1 + 1 != s.len() {
                    Err(BlockError::TrailingData)
                } else if p.0.len() == 0 {
                    Err(BlockError::EmptyTransactionSet)
                } else if header.transactions_root != spec_transactions_root(p.0) {
                    Err(BlockError::CorruptionError)
                } else if spec_block_hash_of(previous_hash, header.spec_root()).value != stored {
                    Err(BlockError::CorruptionError)
                } else {
                    Ok(
                        BlockView {
                            block_hash: BlockHash { value: stored },
                            previous_hash,
                            header,
                            transactions: p.0,
                        },
                    )
                }
            },
        }
    }
}


/// All the fixed checks ahead of the transaction array pass.
pub open spec fn spec_text_prefix_ok(s: Seq<u8>) -> bool {
    &&& s.len() >= 255
    &&& s.subrange(0, 15) == spec_l1()
    &&& all_hex(s.subrange(15, 31))
    &&& s.subrange(31, 50) == spec_l2()
    &&& all_hex(s.subrange(50, 66))
    &&& s.subrange(66, 101) == spec_l3()
    &&& all_hex(s.subrange(101, 117))
    &&& s.subrange(117, 140) == spec_l4()
    &&& all_hex(s.subrange(140, 156))
    &&& s.subrange(156, 168) == spec_l5()
    &&& all_hex(s.subrange(168, 176))
    &&& s.subrange(176, 187) == spec_l6()
    &&& all_hex(s.subrange(187, 203))
    &&& s.subrange(203, 218) == spec_l7()
    &&& all_hex(s.subrange(218, 234))
    &&& s.subrange(234, 253) == spec_l8()
}

/// The header read from the document's fixed field positions.
pub open spec fn spec_text_header(s: Seq<u8>) -> Header {
    Header {
        previous_state_root: BlockHash { value: u64_from_hex(s.subrange(101, 117)) },
        transactions_root: BlockHash { value: u64_from_hex(s.subrange(140, 156)) },
        height: u32_from_hex(s.subrange(168, 176)),
        round: u64_from_hex(s.subrange(187, 203)),
        timestamp: u64_from_hex(s.subrange(218, 234)),
    }
}

/// Reads one record, deciding [`spec_parse_record`].
pub fn parse_record(s: &Vec<u8>, pos: usize) -> (r: Result<Transaction, BlockError>)
    requires
        pos <= s@.len(),
    ensures
        r == spec_parse_record(s@, pos as int),
{
    let n = s.len();
    if n < 62 || pos > n - 62 {
        return Err(BlockError::Truncated);
    }
    if !match_lit(s, pos, &lit_ra()) {
        return Err(BlockError::MalformedDocument);
    }
    let kind = s[pos + 9];
    if !(kind == 100 || kind == 101) {
        return Err(BlockError::InvalidTransactionKind);
    }
    if !match_lit(s, pos + 10, &lit_rb()) {
        return Err(BlockError::MalformedDocument);
    }
    let id = match parse_u64_hex(s, pos + 18) {
        Ok(x) => x,
        Err(e) => {
            return Err(e);
        },
    };
    if !match_lit(s, pos + 34, &lit_rc()) {
        return Err(BlockError::MalformedDocument);
    }
    let data = match parse_u64_hex(s, pos + 44) {
        Ok(x) => x,
        Err(e) => {
            return Err(e);
        },
    };
    if !match_lit(s, pos + 60, &lit_rd()) {
        return Err(BlockError::MalformedDocument);
    }
    if kind == 100 {
        Ok(Transaction::Deploy(Deployment { id, program_id: ProgramId { value: data } }))
    } else {
        Ok(Transaction::Execute(Execution { id, certificate: data }))
    }
}

/// Relates a partially read list to the whole read: whatever the remaining
/// records yield, the whole read yields the accumulated records followed by
/// them, or the same failure.
pub open spec fn spec_list_continues(s: Seq<u8>, acc: Seq<Transaction>, pos: int) -> bool {
    match spec_parse_records(s, pos) {
        Ok(p) => spec_parse_tx_list(s, 253) == Ok::<(Seq<Transaction>, int), BlockError>(
            (acc + p.0, p.1),
        ),
        Err(e) => spec_parse_tx_list(s, 253) == Err::<(Seq<Transaction>, int), BlockError>(e),
    }
}

impl Block {
    /// Writes the block as a structured-text document. The stored hash is
    /// written verbatim from the block's own field, not recomputed.
    pub fn encode_text(&self) -> (r: Vec<u8>)
        ensures
            r@ == spec_encode_text(self@),
    {
        let block_hash = self.hash();
        let previous_hash = self.previous_hash();
        let header = *self.header();
        let transactions = self.transactions();
        let mut out: Vec<u8> = Vec::new();
        emit_lit(&mut out, &lit_l1());
        push_u64_hex(&mut out, block_hash.value);
        emit_lit(&mut out, &lit_l2());
        push_u64_hex(&mut out, previous_hash.value);
        emit_lit(&mut out, &lit_l3());
        push_u64_hex(&mut out, header.previous_state_root.value);
        emit_lit(&mut out, &lit_l4());
        push_u64_hex(&mut out, header.transactions_root.value);
        emit_lit(&mut out, &lit_l5());
        push_u32_hex(&mut out, header.height);
        emit_lit(&mut out, &lit_l6());
        push_u64_hex(&mut out, header.round);
        emit_lit(&mut out, &lit_l7());
        push_u64_hex(&mut out, header.timestamp);
        emit_lit(&mut out, &lit_l8());
        let ghost head = out@;
        let count = transactions.len();
        let mut i: usize = 0;
        while i < count
            invariant
                i <= count,
                count == self@.transactions.len(),
                self@.transactions == transactions@,
                out@ == head + spec_encode_records(self@.transactions.take(i as int)),
            decreases count - i,
        {
            if i > 0 {
                out.push(44u8);
            }
            let tx = *transactions.get(i);
            emit_lit(&mut out, &lit_ra());
            match tx {
                Transaction::Deploy(d) => {
                    out.push(100u8);
                    emit_lit(&mut out, &lit_rb());
                    push_u64_hex(&mut out, d.id);
                    emit_lit(&mut out, &lit_rc());
                    push_u64_hex(&mut out, d.program_id.value);
                },
                Transaction::Execute(e) => {
                    out.push(101u8);
                    emit_lit(&mut out, &lit_rb());
                    push_u64_hex(&mut out, e.id);
                    emit_lit(&mut out, &lit_rc());
                    push_u64_hex(&mut out, e.certificate);
                },
            }
            emit_lit(&mut out, &lit_rd());
            i = i + 1;
            proof {
                let txs = self@.transactions;
                assert(txs.take(i as int).drop_last() =~= txs.take(i - 1));
                assert(txs.take(i as int).last() == txs[i - 1]);
                if i == 1 {
                    assert(out@ =~= head + spec_encode_records(txs.take(i as int)));
                } else {
                    assert(out@ =~= head + spec_encode_records(txs.take(i as int)));
                }
            }
        }
        out.push(93u8);
        out.push(125u8);
        proof {
            assert(self@.transactions.take(self@.transactions.len() as int)
                =~= self@.transactions);
            assert(out@ =~= spec_encode_text(self@));
        }
        out
    }

    /// Reads a block from a structured-text document, reconstructing it
    /// from its parts and failing with `CorruptionError` whenever the
    /// stored hash and the re-derived chaining commitment disagree.
    #[verifier::rlimit(100)]
    pub fn decode_text(bytes: &Vec<u8>) -> (r: Result<Block, BlockError>)
        ensures
            r matches Ok(b) ==> spec_decode_text(bytes@) == Ok::<BlockView, BlockError>(b@),
            r matches Err(e) ==> spec_decode_text(bytes@) == Err::<BlockView, BlockError>(e),
            r matches Ok(b) ==> b@.wf(),
    {
        let n = bytes.len();
        if n < 255 {
            return Err(BlockError::Truncated);
        }
        if !match_lit(bytes, 0, &lit_l1()) {
            return Err(BlockError::MalformedDocument);
        }
        let stored = match parse_u64_hex(bytes, 15) {
            Ok(x) => x,
            Err(e) => {
                return Err(e);
            },
        };
        if !match_lit(bytes, 31, &lit_l2()) {
            return Err(BlockError::MalformedDocument);
        }
        let previous_hash = match parse_u64_hex(bytes, 50) {
            Ok(x) => BlockHash { value: x },
            Err(e) => {
                return Err(e);
            },
        };
        if !match_lit(bytes, 66, &lit_l3()) {
            return Err(BlockError::MalformedDocument);
        }
        let previous_state_root = match parse_u64_hex(bytes, 101) {
            Ok(x) => BlockHash { value: x },
            Err(e) => {
                return Err(e);
            },
        };
        if !match_lit(bytes, 117, &lit_l4()) {
            return Err(BlockError::MalformedDocument);
        }
        let transactions_root = match parse_u64_hex(bytes, 140) {
            Ok(x) => BlockHash { value: x },
            Err(e) => {
                return Err(e);
            },
        };
        if !match_lit(bytes, 156, &lit_l5()) {
            return Err(BlockError::MalformedDocument);
        }
        let height = match parse_u32_hex(bytes, 168) {
            Ok(x) => x,
            Err(e) => {
                return Err(e);
            },
        };
        if !match_lit(bytes, 176, &lit_l6()) {
            return Err(BlockError::MalformedDocument);
        }
        let round = match parse_u64_hex(bytes, 187) {
            Ok(x) => x,
            Err(e) => {
                return Err(e);
            },
        };
        if !match_lit(bytes, 203, &lit_l7()) {
            return Err(BlockError::MalformedDocument);
        }
        let timestamp = match parse_u64_hex(bytes, 218) {
            Ok(x) => x,
            Err(e) => {
                return Err(e);
            },
        };
        if !match_lit(bytes, 234, &lit_l8()) {
            return Err(BlockError::MalformedDocument);
        }
        let header = Header {
            previous_state_root,
            transactions_root,
            height,
            round,
            timestamp,
        };
        let mut txs: Vec<Transaction> = Vec::new();
        let mut pos: usize = 253;
        if bytes[pos] == 93 {
            pos = 254;
        } else {
            proof {
                let r0 = spec_parse_records(bytes@, 253);
                match r0 {
                    Ok(p) => {
                        assert(Seq::<Transaction>::empty() + p.0 =~= p.0);
                    },
                    Err(e) => {},
                }
                assert(spec_list_continues(bytes@, txs@, 253));
            }
            loop
                invariant_except_break
                    253 <= pos <= n,
                    n == bytes@.len(),
                    spec_text_prefix_ok(bytes@),
                    stored == u64_from_hex(bytes@.subrange(15, 31)),
                    previous_hash == (BlockHash { value: u64_from_hex(bytes@.subrange(50, 66)) }),
                    header == spec_text_header(bytes@),
                    spec_list_continues(bytes@, txs@, pos as int),
                ensures
                    spec_parse_tx_list(bytes@, 253) == Ok::<(Seq<Transaction>, int), BlockError>(
                        (txs@, pos as int),
                    ),
                    pos <= n,
                decreases n - pos,
            {
                let ghost acc = txs@;
                let tx = match parse_record(bytes, pos) {
                    Ok(t) => t,
                    Err(e) => {
                        return Err(e);
                    },
                };
                if pos > n - 63 {
                    return Err(BlockError::Truncated);
                }
                let sep = bytes[pos + 62];
                if sep == 93 {
                    txs.push(tx);
                    pos = pos + 63;
                    proof {
                        assert(txs@ =~= acc + seq![tx]);
                    }
                    break;
                } else if sep == 44 {
                    txs.push(tx);
                    pos = pos + 63;
                    proof {
                        assert(txs@ =~= acc + seq![tx]);
                        let r1 = spec_parse_records(bytes@, pos as int);
                        match r1 {
                            Ok(p) => {
                                assert(acc + (seq![tx] + p.0) =~= (acc + seq![tx]) + p.0);
                            },
                            Err(e) => {},
                        }
                        assert(spec_list_continues(bytes@, txs@, pos as int));
                    }
                } else {
                    return Err(BlockError::MalformedDocument);
                }
            }
        }
        if pos >= n {
            return Err(BlockError::Truncated);
        }
        if bytes[pos] != 125 {
            return Err(BlockError::MalformedDocument);
        }
        if pos + 1 != n {
            return Err(BlockError::TrailingData);
        }
        let block = match Block::from_checked(
            BlockHash { value: stored },
            previous_hash,
            header,
            Transactions::new(txs),
        ) {
            Ok(block) => block,
            Err(e) => {
                return Err(e);
            },
        };
        proof {
            assert(spec_decode_text(bytes@) == Ok::<BlockView, BlockError>(block@));
        }
        Ok(block)
    }
}


/// One record is 62 bytes long.
pub proof fn lemma_encode_record_len(tx: Transaction)
    ensures
        spec_encode_record(tx).len() == 62,
{
}

/// A list of `k` records with its separators is `63 * k - 1` bytes long.
pub proof fn lemma_encode_records_len(t: Seq<Transaction>)
    requires
        t.len() >= 1,
    ensures
        spec_encode_records(t).len() == 63 * t.len() - 1,
    decreases t.len(),
{
    if t.len() == 1 {
        lemma_encode_record_len(t[0]);
    } else {
        lemma_encode_records_len(t.drop_last());
        lemma_encode_record_len(t.last());
    }
}

/// A list of two or more records starts with its first record and a comma.
pub proof fn lemma_encode_records_front(t: Seq<Transaction>)
    requires
        t.len() >= 2,
    ensures
        spec_encode_records(t) =~= spec_encode_record(t[0]) + seq![44u8] + spec_encode_records(
            t.subrange(1, t.len() as int),
        ),
    decreases t.len(),
{
    let rest = t.subrange(1, t.len() as int);
    if t.len() == 2 {
        assert(t.drop_last() =~= seq![t[0]]);
        assert(rest =~= seq![t[1]]);
        assert(spec_encode_records(t.drop_last()) == spec_encode_record(t[0]));
        assert(spec_encode_records(rest) == spec_encode_record(t[1]));
    } else {
        lemma_encode_records_front(t.drop_last());
        assert(t.drop_last()[0] == t[0]);
        assert(t.drop_last().subrange(1, t.drop_last().len() as int) =~= rest.drop_last());
        assert(rest.last() == t.last());
        assert(spec_encode_records(rest) == spec_encode_records(rest.drop_last()) + seq![44u8]
            + spec_encode_record(rest.last()));
    }
}

/// A record read back from its own encoding yields the record's
/// transaction.
pub proof fn lemma_parse_encoded_record(s: Seq<u8>, pos: int, tx: Transaction)
    requires
        0 <= pos,
        pos + 62 <= s.len(),
        s.subrange(pos, pos + 62) =~= spec_encode_record(tx),
    ensures
        spec_parse_record(s, pos) == Ok::<Transaction, BlockError>(tx),
{
    let rec = spec_encode_record(tx);
    assert(s.subrange(pos, pos + 9) =~= rec.subrange(0, 9));
    assert(s.subrange(pos + 10, pos + 18) =~= rec.subrange(10, 18));
    assert(s.subrange(pos + 18, pos + 34) =~= rec.subrange(18, 34));
    assert(s.subrange(pos + 34, pos + 44) =~= rec.subrange(34, 44));
    assert(s.subrange(pos + 44, pos + 60) =~= rec.subrange(44, 60));
    assert(s.subrange(pos + 60, pos + 62) =~= rec.subrange(60, 62));
    assert(s[pos + 9] == rec[9]);
    match tx {
        Transaction::Deploy(d) => {
            assert(rec.subrange(0, 9) =~= spec_ra());
            assert(rec[9] == 100u8);
            assert(rec.subrange(10, 18) =~= spec_rb());
            assert(rec.subrange(18, 34) =~= u64_hex(d.id));
            assert(rec.subrange(34, 44) =~= spec_rc());
            assert(rec.subrange(44, 60) =~= u64_hex(d.program_id.value));
            assert(rec.subrange(60, 62) =~= spec_rd());
            lemma_u64_hex_round_trip(d.id);
            lemma_u64_hex_round_trip(d.program_id.value);
        },
        Transaction::Execute(e) => {
            assert(rec.subrange(0, 9) =~= spec_ra());
            assert(rec[9] == 101u8);
            assert(rec.subrange(10, 18) =~= spec_rb());
            assert(rec.subrange(18, 34) =~= u64_hex(e.id));
            assert(rec.subrange(34, 44) =~= spec_rc());
            assert(rec.subrange(44, 60) =~= u64_hex(e.certificate));
            assert(rec.subrange(60, 62) =~= spec_rd());
            lemma_u64_hex_round_trip(e.id);
            lemma_u64_hex_round_trip(e.certificate);
        },
    }
}

/// A record list read back from its own encoding, up to the closing
/// bracket, yields the encoded transactions.
pub proof fn lemma_parse_encoded_records(s: Seq<u8>, pos: int, t: Seq<Transaction>)
    requires
        t.len() >= 1,
        0 <= pos,
        pos + 63 * t.len() <= s.len(),
        s.subrange(pos, pos + 63 * t.len()) =~= spec_encode_records(t) + seq![93u8],
    ensures
        spec_parse_records(s, pos) == Ok::<(Seq<Transaction>, int), BlockError>(
            (t, pos + 63 * t.len()),
        ),
    decreases t.len(),
{
    lemma_encode_records_len(t);
    let whole = s.subrange(pos, pos + 63 * t.len());
    assert(whole == spec_encode_records(t) + seq![93u8]);
    if t.len() == 1 {
        assert forall|i: int| 0 <= i < 62 implies s.subrange(pos, pos + 62)[i]
            == spec_encode_record(t[0])[i] by {
            assert(s.subrange(pos, pos + 62)[i] == s[pos + i]);
            assert(s[pos + i] == whole[i]);
        }
        assert(s.subrange(pos, pos + 62) =~= spec_encode_record(t[0]));
        lemma_parse_encoded_record(s, pos, t[0]);
        assert(s[pos + 62] == whole[62]);
        assert(whole[62] == 93u8);
        assert(seq![t[0]] =~= t);
    } else {
        let rest = t.subrange(1, t.len() as int);
        lemma_encode_records_front(t);
        lemma_encode_record_len(t[0]);
        lemma_encode_records_len(rest);
        let rec = spec_encode_record(t[0]);
        assert(spec_encode_records(t) == rec + seq![44u8] + spec_encode_records(rest));
        assert forall|i: int| 0 <= i < 62 implies s.subrange(pos, pos + 62)[i] == rec[i] by {
            assert(s.subrange(pos, pos + 62)[i] == s[pos + i]);
            assert(s[pos + i] == whole[i]);
            assert(whole[i] == ((rec + seq![44u8]) + spec_encode_records(rest))[i]);
        }
        assert(s.subrange(pos, pos + 62) =~= rec);
        lemma_parse_encoded_record(s, pos, t[0]);
        assert(s[pos + 62] == whole[62]);
        assert(whole[62] == 44u8);
        assert forall|i: int| 0 <= i < 63 * rest.len() implies s.subrange(
            pos + 63,
            pos + 63 + 63 * rest.len(),
        )[i] == (spec_encode_records(rest) + seq![93u8])[i] by {
            assert(s.subrange(pos + 63, pos + 63 + 63 * rest.len())[i] == s[pos + 63 + i]);
            assert(s[pos + 63 + i] == whole[63 + i]);
            assert(whole[63 + i] == (spec_encode_records(t) + seq![93u8])[63 + i]);
        }
        assert(s.subrange(pos + 63, pos + 63 + 63 * rest.len()) =~= spec_encode_records(rest)
            + seq![93u8]);
        lemma_parse_encoded_records(s, pos + 63, rest);
        assert(seq![t[0]] + rest =~= t);
    }
}

/// The layout of the first half of an encoded document.
#[verifier::rlimit(100)]
pub proof fn lemma_text_layout_a(v: BlockView)
    requires
        v.transactions.len() >= 1,
    ensures
        spec_encode_text(v).len() == 254 + 63 * v.transactions.len(),
        spec_encode_text(v).subrange(0, 15) =~= spec_l1(),
        spec_encode_text(v).subrange(15, 31) =~= u64_hex(v.block_hash.value),
        spec_encode_text(v).subrange(31, 50) =~= spec_l2(),
        spec_encode_text(v).subrange(50, 66) =~= u64_hex(v.previous_hash.value),
        spec_encode_text(v).subrange(66, 101) =~= spec_l3(),
        spec_encode_text(v).subrange(101, 117) =~= u64_hex(v.header.previous_state_root.value),
        spec_encode_text(v).subrange(117, 140) =~= spec_l4(),
        spec_encode_text(v).subrange(140, 156) =~= u64_hex(v.header.transactions_root.value),
{
    lemma_encode_records_len(v.transactions);
}

/// The layout of the second half of an encoded document.
#[verifier::rlimit(100)]
pub proof fn lemma_text_layout_b(v: BlockView)
    requires
        v.transactions.len() >= 1,
    ensures
        spec_encode_text(v).subrange(156, 168) =~= spec_l5(),
        spec_encode_text(v).subrange(168, 176) =~= u32_hex(v.header.height),
        spec_encode_text(v).subrange(176, 187) =~= spec_l6(),
        spec_encode_text(v).subrange(187, 203) =~= u64_hex(v.header.round),
        spec_encode_text(v).subrange(203, 218) =~= spec_l7(),
        spec_encode_text(v).subrange(218, 234) =~= u64_hex(v.header.timestamp),
        spec_encode_text(v).subrange(234, 253) =~= spec_l8(),
        spec_encode_text(v).subrange(253, 253 + 63 * v.transactions.len() as int)
            =~= spec_encode_records(v.transactions) + seq![93u8],
        spec_encode_text(v)[253 + 63 * v.transactions.len() as int] == 125u8,
{
    lemma_encode_records_len(v.transactions);
}

/// The fields of an encoded document parse back to the encoded values.
#[verifier::rlimit(100)]
pub proof fn lemma_encode_text_fields(v: BlockView)
    requires
        v.transactions.len() >= 1,
    ensures
        spec_encode_text(v).len() == 254 + 63 * v.transactions.len(),
        spec_text_prefix_ok(spec_encode_text(v)),
        u64_from_hex(spec_encode_text(v).subrange(15, 31)) == v.block_hash.value,
        u64_from_hex(spec_encode_text(v).subrange(50, 66)) == v.previous_hash.value,
        spec_text_header(spec_encode_text(v)) == v.header,
        spec_encode_text(v).subrange(253, 253 + 63 * v.transactions.len() as int)
            =~= spec_encode_records(v.transactions) + seq![93u8],
        spec_encode_text(v)[253 + 63 * v.transactions.len() as int] == 125u8,
{
    lemma_text_layout_a(v);
    lemma_text_layout_b(v);
    lemma_u64_hex_round_trip(v.block_hash.value);
    lemma_u64_hex_round_trip(v.previous_hash.value);
    lemma_u64_hex_round_trip(v.header.previous_state_root.value);
    lemma_u64_hex_round_trip(v.header.transactions_root.value);
    lemma_u32_hex_round_trip(v.header.height);
    lemma_u64_hex_round_trip(v.header.round);
    lemma_u64_hex_round_trip(v.header.timestamp);
}

/// Round-trip: decoding the text encoding of any well-formed block yields
/// the block back, field for field.
#[verifier::rlimit(100)]
#[verifier::spinoff_prover]
pub proof fn lemma_text_round_trip(v: BlockView)
    requires
        v.wf(),
        v.spec_committed(),
    ensures
        spec_decode_text(spec_encode_text(v)) == Ok::<BlockView, BlockError>(v),
{
    let s = spec_encode_text(v);
    let k = v.transactions.len() as int;
    lemma_encode_text_fields(v);
    lemma_encode_records_len(v.transactions);
    // The array is non-empty, so its first byte opens a record.
    if k == 1 {
        lemma_encode_record_len(v.transactions[0]);
        assert(spec_encode_records(v.transactions)[0] == spec_encode_record(
            v.transactions[0],
        )[0]);
    } else {
        lemma_encode_records_front(v.transactions);
        assert(spec_encode_records(v.transactions)[0] == spec_encode_record(
            v.transactions[0],
        )[0]);
    }
    assert(spec_encode_record(v.transactions[0])[0] == 123u8);
    assert(s[253] == (spec_encode_records(v.transactions) + seq![93u8])[0]);
    assert(s[253] == 123u8);
    lemma_parse_encoded_records(s, 253, v.transactions);
    assert(spec_parse_tx_list(s, 253) == Ok::<(Seq<Transaction>, int), BlockError>(
        (v.transactions, 253 + 63 * k),
    ));
    assert(spec_decode_text(s) == Ok::<BlockView, BlockError>(v));
}


/// A document equal to an encoded block everywhere outside the stored-hash
/// digits still passes every fixed check ahead of the array, and still
/// carries the encoded header, records and closing brace.
#[verifier::rlimit(100)]
pub proof fn lemma_text_transfer_outside_hash(v: BlockView, s2: Seq<u8>)
    requires
        v.transactions.len() >= 1,
        s2.len() == spec_encode_text(v).len(),
        forall|j: int|
            0 <= j < s2.len() && !(15 <= j < 31) ==> s2[j] == spec_encode_text(v)[j],
        all_hex(s2.subrange(15, 31)),
    ensures
        spec_text_prefix_ok(s2),
        spec_text_header(s2) == v.header,
        u64_from_hex(s2.subrange(50, 66)) == v.previous_hash.value,
        s2.subrange(253, 253 + 63 * v.transactions.len() as int) =~= spec_encode_records(
            v.transactions,
        ) + seq![93u8],
        s2[253 + 63 * v.transactions.len() as int] == 125u8,
{
    let s = spec_encode_text(v);
    let k = v.transactions.len() as int;
    lemma_encode_text_fields(v);
    lemma_text_layout_a(v);
    lemma_text_layout_b(v);
    assert(s2.subrange(0, 15) =~= s.subrange(0, 15));
    assert(s2.subrange(31, 50) =~= s.subrange(31, 50));
    assert(s2.subrange(50, 66) =~= s.subrange(50, 66));
    assert(s2.subrange(66, 101) =~= s.subrange(66, 101));
    assert(s2.subrange(101, 117) =~= s.subrange(101, 117));
    assert(s2.subrange(117, 140) =~= s.subrange(117, 140));
    assert(s2.subrange(140, 156) =~= s.subrange(140, 156));
    assert(s2.subrange(156, 168) =~= s.subrange(156, 168));
    assert(s2.subrange(168, 176) =~= s.subrange(168, 176));
    assert(s2.subrange(176, 187) =~= s.subrange(176, 187));
    assert(s2.subrange(187, 203) =~= s.subrange(187, 203));
    assert(s2.subrange(203, 218) =~= s.subrange(203, 218));
    assert(s2.subrange(218, 234) =~= s.subrange(218, 234));
    assert(s2.subrange(234, 253) =~= s.subrange(234, 253));
    assert(s2.subrange(253, 253 + 63 * k) =~= s.subrange(253, 253 + 63 * k));
    assert(s2[253 + 63 * k] == s[253 + 63 * k]);
}

/// A non-empty record list opens with a record's opening brace.
pub proof fn lemma_text_records_head(v: BlockView)
    requires
        v.transactions.len() >= 1,
    ensures
        spec_encode_records(v.transactions)[0] == 123u8,
{
    let k = v.transactions.len() as int;
    if k == 1 {
        lemma_encode_record_len(v.transactions[0]);
        assert(spec_encode_records(v.transactions)[0] == spec_encode_record(
            v.transactions[0],
        )[0]);
    } else {
        lemma_encode_records_front(v.transactions);
        assert(spec_encode_records(v.transactions)[0] == spec_encode_record(
            v.transactions[0],
        )[0]);
    }
    assert(spec_encode_record(v.transactions[0])[0] == 123u8);
}

/// Valid stored-hash digits that differ from the encoded ones denote a
/// different word than the block's own hash: the digit reading is
/// injective.
pub proof fn lemma_text_stored_digits_differ(v: BlockView, s2: Seq<u8>)
    requires
        s2.len() >= 31,
        all_hex(s2.subrange(15, 31)),
        v.transactions.len() >= 1,
        s2.subrange(15, 31) != spec_encode_text(v).subrange(15, 31),
    ensures
        u64_from_hex(s2.subrange(15, 31)) != v.block_hash.value,
{
    lemma_text_layout_a(v);
    lemma_u64_hex_round_trip(v.block_hash.value);
    let stored2 = u64_from_hex(s2.subrange(15, 31));
    if stored2 == v.block_hash.value {
        lemma_u64_from_hex_inverse(s2.subrange(15, 31));
        assert(s2.subrange(15, 31) =~= u64_hex(stored2));
        assert(s2.subrange(15, 31) =~= spec_encode_text(v).subrange(15, 31));
    }
}

/// Corruption detection at the stored-hash field of the document: changing
/// the digits that carry the stored hash of an encoded well-formed block —
/// to different but still valid digits — while leaving the rest of the
/// document alone, makes decoding fail with `CorruptionError` rather than
/// yield a block.
#[verifier::rlimit(100)]
#[verifier::spinoff_prover]
pub proof fn lemma_text_detects_hash_corruption(v: BlockView, s2: Seq<u8>)
    requires
        v.wf(),
        v.spec_committed(),
        s2.len() == spec_encode_text(v).len(),
        forall|j: int|
            0 <= j < s2.len() && !(15 <= j < 31) ==> s2[j] == spec_encode_text(v)[j],
        all_hex(s2.subrange(15, 31)),
        s2.subrange(15, 31) != spec_encode_text(v).subrange(15, 31),
    ensures
        spec_decode_text(s2) == Err::<BlockView, BlockError>(BlockError::CorruptionError),
{
    let k = v.transactions.len() as int;
    lemma_encode_text_fields(v);
    lemma_text_transfer_outside_hash(v, s2);
    lemma_parse_encoded_records(s2, 253, v.transactions);
    lemma_encode_records_len(v.transactions);
    lemma_text_records_head(v);
    assert(s2[253] == (spec_encode_records(v.transactions) + seq![93u8])[0]);
    assert(s2[253] == 123u8);
    assert(spec_parse_tx_list(s2, 253) == Ok::<(Seq<Transaction>, int), BlockError>(
        (v.transactions, 253 + 63 * k),
    ));
    lemma_text_stored_digits_differ(v, s2);
    assert(spec_decode_text(s2) == Err::<BlockView, BlockError>(BlockError::CorruptionError));
}


/// Tampering with the record bytes of an encoded well-formed block's
/// document — so that they read back as a list whose commitment differs —
/// makes decoding fail with `CorruptionError`: the header's
/// `transactions_root` no longer commits to the records.
#[verifier::rlimit(100)]
#[verifier::spinoff_prover]
pub proof fn lemma_text_detects_record_tampering(
    v: BlockView,
    s2: Seq<u8>,
    t2: Seq<Transaction>,
)
    requires
        v.wf(),
        v.spec_committed(),
        t2.len() == v.transactions.len(),
        spec_transactions_root(t2) != spec_transactions_root(v.transactions),
        s2.len() == spec_encode_text(v).len(),
        forall|j: int| 0 <= j < 253 ==> s2[j] == spec_encode_text(v)[j],
        s2.subrange(253, 253 + 63 * t2.len() as int) =~= spec_encode_records(t2) + seq![93u8],
        s2[253 + 63 * t2.len() as int] == 125u8,
    ensures
        spec_decode_text(s2) == Err::<BlockView, BlockError>(BlockError::CorruptionError),
{
    let s = spec_encode_text(v);
    let k = v.transactions.len() as int;
    lemma_encode_text_fields(v);
    lemma_text_layout_a(v);
    lemma_text_layout_b(v);
    assert(s2.subrange(0, 15) =~= s.subrange(0, 15));
    assert(s2.subrange(15, 31) =~= s.subrange(15, 31));
    assert(s2.subrange(31, 50) =~= s.subrange(31, 50));
    assert(s2.subrange(50, 66) =~= s.subrange(50, 66));
    assert(s2.subrange(66, 101) =~= s.subrange(66, 101));
    assert(s2.subrange(101, 117) =~= s.subrange(101, 117));
    assert(s2.subrange(117, 140) =~= s.subrange(117, 140));
    assert(s2.subrange(140, 156) =~= s.subrange(140, 156));
    assert(s2.subrange(156, 168) =~= s.subrange(156, 168));
    assert(s2.subrange(168, 176) =~= s.subrange(168, 176));
    assert(s2.subrange(176, 187) =~= s.subrange(176, 187));
    assert(s2.subrange(187, 203) =~= s.subrange(187, 203));
    assert(s2.subrange(203, 218) =~= s.subrange(203, 218));
    assert(s2.subrange(218, 234) =~= s.subrange(218, 234));
    assert(s2.subrange(234, 253) =~= s.subrange(234, 253));
    assert(spec_text_prefix_ok(s2));
    assert(spec_text_header(s2) == v.header);
    assert(u64_from_hex(s2.subrange(15, 31)) == v.block_hash.value);
    lemma_encode_records_len(t2);
    lemma_parse_encoded_records(s2, 253, t2);
    let v2 = BlockView { transactions: t2, ..v };
    lemma_text_records_head(v2);
    assert(s2[253] == (spec_encode_records(t2) + seq![93u8])[0]);
    assert(s2[253] == 123u8);
    assert(spec_parse_tx_list(s2, 253) == Ok::<(Seq<Transaction>, int), BlockError>(
        (t2, 253 + 63 * k),
    ));
    assert(spec_decode_text(s2) == Err::<BlockView, BlockError>(BlockError::CorruptionError));
}


/// A document equal to an encoded block everywhere outside the header digit
/// windows, with valid digits in them, still passes every fixed check ahead
/// of the array and still carries the encoded stored hash, previous hash,
/// records and closing brace.
#[verifier::rlimit(100)]
#[verifier::spinoff_prover]
pub proof fn lemma_text_transfer_outside_header(v: BlockView, s2: Seq<u8>)
    requires
        v.transactions.len() >= 1,
        s2.len() == spec_encode_text(v).len(),
        forall|j: int|
            0 <= j < s2.len() && !((101 <= j < 117) || (140 <= j < 156) || (168 <= j < 176) || (
            187 <= j < 203) || (218 <= j < 234)) ==> s2[j] == spec_encode_text(v)[j],
        all_hex(s2.subrange(101, 117)),
        all_hex(s2.subrange(140, 156)),
        all_hex(s2.subrange(168, 176)),
        all_hex(s2.subrange(187, 203)),
        all_hex(s2.subrange(218, 234)),
    ensures
        spec_text_prefix_ok(s2),
        u64_from_hex(s2.subrange(15, 31)) == v.block_hash.value,
        u64_from_hex(s2.subrange(50, 66)) == v.previous_hash.value,
        s2.subrange(253, 253 + 63 * v.transactions.len() as int) =~= spec_encode_records(
            v.transactions,
        ) + seq![93u8],
        s2[253 + 63 * v.transactions.len() as int] == 125u8,
{
    let s = spec_encode_text(v);
    let k = v.transactions.len() as int;
    lemma_encode_text_fields(v);
    lemma_text_layout_a(v);
    lemma_text_layout_b(v);
    assert(s2.subrange(0, 15) =~= s.subrange(0, 15));
    assert(s2.subrange(15, 31) =~= s.subrange(15, 31));
    assert(s2.subrange(31, 50) =~= s.subrange(31, 50));
    assert(s2.subrange(50, 66) =~= s.subrange(50, 66));
    assert(s2.subrange(66, 101) =~= s.subrange(66, 101));
    assert(s2.subrange(117, 140) =~= s.subrange(117, 140));
    assert(s2.subrange(156, 168) =~= s.subrange(156, 168));
    assert(s2.subrange(176, 187) =~= s.subrange(176, 187));
    assert(s2.subrange(203, 218) =~= s.subrange(203, 218));
    assert(s2.subrange(234, 253) =~= s.subrange(234, 253));
    assert(s2.subrange(253, 253 + 63 * k) =~= s.subrange(253, 253 + 63 * k));
    assert(s2[253 + 63 * k] == s[253 + 63 * k]);
    lemma_u64_hex_round_trip(v.block_hash.value);
    lemma_u64_hex_round_trip(v.previous_hash.value);
}

/// Tampering with the header digits of an encoded well-formed, committed
/// block's document — so that they read back as a header that no longer
/// commits to the records, or no longer chains to the stored hash — makes
/// decoding fail with `CorruptionError`. For fields other than
/// `transactions_root` the second disjunct is the collision-resistance
/// assumption on the hash capability, stated as an explicit hypothesis.
#[verifier::rlimit(100)]
#[verifier::spinoff_prover]
pub proof fn lemma_text_detects_header_tampering(v: BlockView, s2: Seq<u8>)
    requires
        v.wf(),
        v.spec_committed(),
        s2.len() == spec_encode_text(v).len(),
        forall|j: int|
            0 <= j < s2.len() && !((101 <= j < 117) || (140 <= j < 156) || (168 <= j < 176) || (
            187 <= j < 203) || (218 <= j < 234)) ==> s2[j] == spec_encode_text(v)[j],
        all_hex(s2.subrange(101, 117)),
        all_hex(s2.subrange(140, 156)),
        all_hex(s2.subrange(168, 176)),
        all_hex(s2.subrange(187, 203)),
        all_hex(s2.subrange(218, 234)),
        spec_text_header(s2).transactions_root != spec_transactions_root(v.transactions)
            || spec_block_hash_of(v.previous_hash, spec_text_header(s2).spec_root())
            != v.block_hash,
    ensures
        spec_decode_text(s2) == Err::<BlockView, BlockError>(BlockError::CorruptionError),
{
    let k = v.transactions.len() as int;
    lemma_text_transfer_outside_header(v, s2);
    lemma_encode_records_len(v.transactions);
    lemma_parse_encoded_records(s2, 253, v.transactions);
    lemma_text_records_head(v);
    assert(s2[253] == (spec_encode_records(v.transactions) + seq![93u8])[0]);
    assert(s2[253] == 123u8);
    assert(spec_parse_tx_list(s2, 253) == Ok::<(Seq<Transaction>, int), BlockError>(
        (v.transactions, 253 + 63 * k),
    ));
    assert(spec_decode_text(s2) == Err::<BlockView, BlockError>(BlockError::CorruptionError));
}

/// Changing the digits that carry the header's `transactions_root` in the
/// document — to different but still valid digits — makes decoding fail
/// with `CorruptionError`, unconditionally: the read header no longer
/// commits to the records.
pub proof fn lemma_text_detects_transactions_root_corruption(v: BlockView, s2: Seq<u8>)
    requires
        v.wf(),
        v.spec_committed(),
        s2.len() == spec_encode_text(v).len(),
        forall|j: int|
            0 <= j < s2.len() && !(140 <= j < 156) ==> s2[j] == spec_encode_text(v)[j],
        all_hex(s2.subrange(140, 156)),
        s2.subrange(140, 156) != spec_encode_text(v).subrange(140, 156),
    ensures
        spec_decode_text(s2) == Err::<BlockView, BlockError>(BlockError::CorruptionError),
{
    let s = spec_encode_text(v);
    lemma_text_layout_a(v);
    lemma_text_layout_b(v);
    assert(s2.subrange(101, 117) =~= s.subrange(101, 117));
    assert(s2.subrange(168, 176) =~= s.subrange(168, 176));
    assert(s2.subrange(187, 203) =~= s.subrange(187, 203));
    assert(s2.subrange(218, 234) =~= s.subrange(218, 234));
    lemma_u64_hex_round_trip(v.header.previous_state_root.value);
    lemma_u32_hex_round_trip(v.header.height);
    lemma_u64_hex_round_trip(v.header.round);
    lemma_u64_hex_round_trip(v.header.timestamp);
    // The read word differs from the committed root: reading sixteen valid
    // digits is injective, so equal words would mean equal digits.
    let read = u64_from_hex(s2.subrange(140, 156));
    if read == v.header.transactions_root.value {
        lemma_u64_from_hex_inverse(s2.subrange(140, 156));
        assert(s2.subrange(140, 156) =~= u64_hex(read));
        lemma_u64_hex_round_trip(v.header.transactions_root.value);
        assert(s2.subrange(140, 156) =~= s.subrange(140, 156));
    }
    assert(spec_text_header(s2).transactions_root != spec_transactions_root(v.transactions));
    lemma_text_detects_header_tampering(v, s2);
}

} // verus!
