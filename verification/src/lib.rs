//! Block construction, genesis bootstrap, verification and (de)serialization
//! for a hash-chained ledger whose transactions come out of a proving virtual
//! machine.
//!
//! A [`block::Block`] binds a commitment to the previous block, a header
//! committing to ledger state, and a non-empty ordered transaction list into
//! one hash-addressed unit. Construction assembles the parts as supplied;
//! both decoders additionally require the header's `transactions_root` to
//! commit to the transaction list and re-derive the chaining commitment on
//! read, so a decoded block's stored hash covers every record transitively
//! and no decoder can hand back a block whose stored and recomputed
//! commitments disagree.

mod account;
mod binary;
mod block;
mod bytes_le;
mod entropy;
mod errors;
mod hashing;
mod header;
mod hex;
mod program;
mod text;
mod transaction;
mod vm;

pub use account::{Address, PrivateKey};
pub use block::{compute_block_hash, spec_block_hash_of, Block, BlockView};
pub use block::{lemma_hash_consistency, lemma_verify_rejects_height_zero_non_genesis, lemma_verify_rejects_tampered_previous_hash};
pub use binary::{lemma_binary_detects_hash_corruption, lemma_binary_detects_header_tampering, lemma_binary_detects_kind_flip, lemma_binary_detects_record_tampering, lemma_binary_detects_transactions_root_corruption, lemma_binary_round_trip, lemma_decode_encoded_txs, lemma_encode_block_fields, lemma_encode_txs_subrange, lemma_encode_txs_update};
pub use binary::{lemma_decode_txs_err_persists, lemma_encode_txs_len, spec_decode_block, spec_decode_tx_at, spec_decode_txs, spec_encode_block, spec_encode_header, spec_encode_tx, spec_encode_txs, spec_header_at};
pub use bytes_le::{push_u32_le, push_u64_le, read_u32_le, read_u64_le, u32_from_le, u32_le, u64_from_le, u64_le};
pub use bytes_le::{lemma_u32_le_round_trip, lemma_u64_from_le_inverse, lemma_u64_le_round_trip};
pub use entropy::Entropy;
pub use errors::{BlockError, VmError};
pub use hashing::{lemma_hash_bits_single_flip, BlockHash};
pub use header::Header;
pub use hex::{all_hex, hex_digit, hex_val, is_hex_digit, lemma_u32_hex_round_trip, lemma_u64_from_hex_inverse, lemma_u64_hex_round_trip, parse_u32_hex, parse_u64_hex, push_u32_hex, push_u64_hex, u32_from_hex, u32_hex, u64_from_hex, u64_hex};
pub use program::{Identifier, Program, ProgramId, Value};
pub use text::{lemma_text_detects_hash_corruption, lemma_text_detects_header_tampering, lemma_text_detects_record_tampering, lemma_text_detects_transactions_root_corruption, lemma_text_round_trip, spec_decode_text, spec_encode_record, spec_encode_records, spec_encode_text, spec_parse_record, spec_parse_records, spec_parse_tx_list};
pub use transaction::{lemma_transactions_root_single_flip, lemma_tx_bits_kind_swap, lemma_txs_bits_len, spec_transactions_root, spec_tx_bits, spec_txs_bits};
pub use transaction::{Authorization, Deployment, Execution, Receipt, Transaction, Transactions};
pub use vm::{FailingVm, LocalVm, Vm};

use vstd::prelude::*;

verus! {

} // verus!
