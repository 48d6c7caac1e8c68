use ledger_block::{
    Block, BlockError, BlockHash, Deployment, Execution, Header, ProgramId, Transaction,
    Transactions,
};

fn sample_block() -> Block {
    let txs = Transactions::new(vec![
        Transaction::Deploy(Deployment {
            id: 7,
            program_id: ProgramId { value: 3 },
        }),
        Transaction::Execute(Execution {
            id: 9,
            certificate: 11,
        }),
    ]);
    let header = Header {
        previous_state_root: BlockHash { value: 0x1111 },
        transactions_root: txs.root(),
        height: 1,
        round: 3,
        timestamp: 1_660_000_000,
    };
    Block::from(BlockHash { value: 0xabcd }, header, txs).unwrap()
}

#[test]
fn binary_round_trip() {
    let b = sample_block();
    let bytes = b.encode_binary();
    let back = Block::decode_binary(&bytes).unwrap();
    assert_eq!(back, b);
}

#[test]
fn binary_layout_starts_with_version_zero() {
    let bytes = sample_block().encode_binary();
    assert_eq!(bytes[0], 0);
    assert_eq!(bytes[1], 0);
    // Two 17-byte records after the 62-byte fixed part.
    assert_eq!(bytes.len(), 62 + 2 * 17);
}

#[test]
fn binary_rejects_unsupported_version() {
    let mut bytes = sample_block().encode_binary();
    bytes[0] = 1;
    assert_eq!(Block::decode_binary(&bytes).unwrap_err(), BlockError::UnsupportedVersion);
}

#[test]
fn binary_rejects_truncated_input() {
    let bytes = sample_block().encode_binary();
    let cut = bytes[..10].to_vec();
    assert_eq!(Block::decode_binary(&cut).unwrap_err(), BlockError::Truncated);
    let cut = bytes[..70].to_vec();
    assert_eq!(Block::decode_binary(&cut).unwrap_err(), BlockError::Truncated);
}

#[test]
fn binary_rejects_trailing_data() {
    let mut bytes = sample_block().encode_binary();
    bytes.push(0);
    assert_eq!(Block::decode_binary(&bytes).unwrap_err(), BlockError::TrailingData);
}

#[test]
fn binary_rejects_unknown_record_kind() {
    let mut bytes = sample_block().encode_binary();
    bytes[62] = 7;
    assert_eq!(
        Block::decode_binary(&bytes).unwrap_err(),
        BlockError::InvalidTransactionKind
    );
}

#[test]
fn binary_detects_corrupted_transaction_payload() {
    let b = sample_block();
    // Every single-bit flip across the two records' 34 bytes must be
    // caught: a kind flip or a payload flip changes the list the header's
    // transactions_root commits to.
    for byte in 62..96 {
        for bit in 0..8 {
            let mut bytes = b.encode_binary();
            bytes[byte] ^= 1 << bit;
            let r = Block::decode_binary(&bytes);
            assert!(
                matches!(
                    r,
                    Err(BlockError::CorruptionError) | Err(BlockError::InvalidTransactionKind)
                ),
                "flip of bit {bit} in byte {byte} went unnoticed: {r:?}"
            );
        }
    }
}

#[test]
fn binary_detects_record_kind_swap() {
    let b = sample_block();
    // Turning the deployment record into an execution record keeps the
    // record shape but changes the committed list.
    let mut bytes = b.encode_binary();
    assert_eq!(bytes[62], 0);
    bytes[62] = 1;
    assert_eq!(
        Block::decode_binary(&bytes).unwrap_err(),
        BlockError::CorruptionError
    );
}

#[test]
fn binary_rejects_empty_transaction_list() {
    // A version-zero image whose every field is zero announces zero records.
    let bytes = vec![0u8; 62];
    assert_eq!(
        Block::decode_binary(&bytes).unwrap_err(),
        BlockError::EmptyTransactionSet
    );
}

#[test]
fn binary_detects_corrupted_stored_hash() {
    let b = sample_block();
    for bit in 0..8 {
        for byte in 2..10 {
            let mut bytes = b.encode_binary();
            bytes[byte] ^= 1 << bit;
            assert_eq!(
                Block::decode_binary(&bytes).unwrap_err(),
                BlockError::CorruptionError
            );
        }
    }
}

#[test]
fn binary_detects_corrupted_header_payload() {
    let b = sample_block();
    // Every single-bit flip across the header's 36 bytes must be caught.
    for byte in 18..54 {
        for bit in 0..8 {
            let mut bytes = b.encode_binary();
            bytes[byte] ^= 1 << bit;
            assert_eq!(
                Block::decode_binary(&bytes).unwrap_err(),
                BlockError::CorruptionError,
                "flip of bit {bit} in byte {byte} went unnoticed"
            );
        }
    }
}

#[test]
fn binary_detects_corrupted_previous_hash() {
    let b = sample_block();
    for byte in 10..18 {
        let mut bytes = b.encode_binary();
        bytes[byte] ^= 0x80;
        assert_eq!(
            Block::decode_binary(&bytes).unwrap_err(),
            BlockError::CorruptionError
        );
    }
}

#[test]
fn text_round_trip() {
    let b = sample_block();
    let doc = b.encode_text();
    let back = Block::decode_text(&doc).unwrap();
    assert_eq!(back, b);
}

#[test]
fn text_document_is_field_named() {
    let doc = sample_block().encode_text();
    let text = String::from_utf8(doc).unwrap();
    assert!(text.starts_with("{\"block_hash\":\""));
    assert!(text.contains("\"previous_hash\":\""));
    assert!(text.contains("\"header\":{\"previous_state_root\":\""));
    assert!(text.contains("\"height\":\"00000001\""));
    assert!(text.contains("\"transactions\":[{\"kind\":\"d\",\"id\":\"0000000000000007\""));
    assert!(text.ends_with("\"}]}"));
}

#[test]
fn text_detects_corrupted_stored_hash() {
    let mut doc = sample_block().encode_text();
    // Swap the first stored-hash digit for a different digit.
    doc[15] = if doc[15] == b'0' { b'1' } else { b'0' };
    assert_eq!(Block::decode_text(&doc).unwrap_err(), BlockError::CorruptionError);
}

#[test]
fn text_detects_corrupted_header_digit() {
    let mut doc = sample_block().encode_text();
    // A digit of previous_state_root, at the document's fixed offset.
    doc[101] = if doc[101] == b'0' { b'1' } else { b'0' };
    assert_eq!(Block::decode_text(&doc).unwrap_err(), BlockError::CorruptionError);
}

#[test]
fn text_rejects_malformed_document() {
    let mut doc = sample_block().encode_text();
    doc[0] = b'x';
    assert_eq!(Block::decode_text(&doc).unwrap_err(), BlockError::MalformedDocument);
    let mut doc = sample_block().encode_text();
    doc[15] = b'x';
    assert_eq!(Block::decode_text(&doc).unwrap_err(), BlockError::MalformedDocument);
}

#[test]
fn text_rejects_unknown_record_kind() {
    let mut doc = sample_block().encode_text();
    doc[253 + 9] = b'x';
    assert_eq!(
        Block::decode_text(&doc).unwrap_err(),
        BlockError::InvalidTransactionKind
    );
}

#[test]
fn text_detects_record_kind_swap() {
    let mut doc = sample_block().encode_text();
    assert_eq!(doc[253 + 9], b'd');
    doc[253 + 9] = b'e';
    assert_eq!(Block::decode_text(&doc).unwrap_err(), BlockError::CorruptionError);
}

#[test]
fn text_detects_corrupted_record_digit() {
    let mut doc = sample_block().encode_text();
    // The last digit of the first record's id field.
    let pos = 253 + 18 + 15;
    doc[pos] = if doc[pos] == b'0' { b'1' } else { b'0' };
    assert_eq!(Block::decode_text(&doc).unwrap_err(), BlockError::CorruptionError);
}

#[test]
fn text_rejects_trailing_data() {
    let mut doc = sample_block().encode_text();
    doc.push(b' ');
    assert_eq!(Block::decode_text(&doc).unwrap_err(), BlockError::TrailingData);
}

#[test]
fn text_rejects_truncated_document() {
    let mut doc = sample_block().encode_text();
    doc.pop();
    assert_eq!(Block::decode_text(&doc).unwrap_err(), BlockError::Truncated);
    let cut = doc[..100].to_vec();
    assert_eq!(Block::decode_text(&cut).unwrap_err(), BlockError::Truncated);
}

#[test]
fn codecs_do_not_interfere() {
    let b = sample_block();
    let bytes = b.encode_binary();
    let doc = b.encode_text();
    assert_ne!(bytes, doc);
    assert_eq!(Block::decode_binary(&bytes).unwrap(), Block::decode_text(&doc).unwrap());
}
