use ledger_block::{
    Address, Block, BlockError, BlockHash, Deployment, Entropy, Execution, FailingVm, Header,
    LocalVm, PrivateKey, ProgramId, Transaction, Transactions, VmError,
};

fn sample_header_for(txs: &Transactions) -> Header {
    Header {
        previous_state_root: BlockHash { value: 0x1111 },
        transactions_root: txs.root(),
        height: 1,
        round: 3,
        timestamp: 1_660_000_000,
    }
}

fn sample_transactions() -> Transactions {
    Transactions::new(vec![
        Transaction::Deploy(Deployment {
            id: 7,
            program_id: ProgramId { value: 3 },
        }),
        Transaction::Execute(Execution {
            id: 9,
            certificate: 11,
        }),
    ])
}

fn sample_block() -> Block {
    let txs = sample_transactions();
    let header = sample_header_for(&txs);
    Block::from(BlockHash { value: 0xabcd }, header, txs).unwrap()
}

#[test]
fn from_rejects_empty_transactions() {
    let header = sample_header_for(&sample_transactions());
    let r = Block::from(BlockHash { value: 1 }, header, Transactions::new(vec![]));
    assert_eq!(r.unwrap_err(), BlockError::EmptyTransactionSet);
}

#[test]
fn from_assembles_whatever_header_is_supplied() {
    // Construction does not police the header: the parts are bound as they
    // are, and only the decoders demand that the header commit to the list.
    let txs = sample_transactions();
    let mut header = sample_header_for(&txs);
    header.transactions_root = BlockHash { value: header.transactions_root.value ^ 1 };
    let b = Block::from(BlockHash { value: 1 }, header, txs).unwrap();
    assert_eq!(*b.header(), header);
    let bytes = b.encode_binary();
    assert_eq!(Block::decode_binary(&bytes).unwrap_err(), BlockError::CorruptionError);
    let doc = b.encode_text();
    assert_eq!(Block::decode_text(&doc).unwrap_err(), BlockError::CorruptionError);
}

#[test]
fn from_checked_rejects_header_that_does_not_commit_to_the_list() {
    let txs = sample_transactions();
    let mut header = sample_header_for(&txs);
    header.transactions_root = BlockHash { value: header.transactions_root.value ^ 1 };
    let stored = BlockHash { value: 1 };
    let r = Block::from_checked(stored, BlockHash { value: 2 }, header, txs);
    assert_eq!(r.unwrap_err(), BlockError::CorruptionError);
}

#[test]
fn from_keeps_its_parts() {
    let b = sample_block();
    assert_eq!(b.previous_hash(), BlockHash { value: 0xabcd });
    assert_eq!(*b.header(), sample_header_for(&sample_transactions()));
    assert_eq!(b.transactions().len(), 2);
    assert!(!b.transactions().is_empty());
}

#[test]
fn hash_consistency() {
    let b = sample_block();
    let root = b.header().root();
    let derived = ledger_block::compute_block_hash(&b.previous_hash(), &root);
    assert_eq!(b.hash(), derived);
}

#[test]
fn hashing_is_deterministic() {
    let b1 = sample_block();
    let b2 = sample_block();
    assert_eq!(b1.hash(), b2.hash());
    assert_eq!(b1, b2);
}

#[test]
fn is_genesis_shape() {
    let one = Transactions::new(vec![Transaction::Execute(Execution {
        id: 5,
        certificate: 6,
    })]);
    let mut header = Header::genesis();
    header.transactions_root = one.root();
    let g = Block::from(BlockHash::zero(), header, one).unwrap();
    assert!(g.is_genesis());
    let b = sample_block();
    assert!(!b.is_genesis());
}

#[test]
fn genesis_yields_a_genesis_block() {
    let mut vm = LocalVm::new();
    let key = PrivateKey { secret: 0x5eed };
    let mut rng = Entropy::new(42);
    let g = Block::genesis(&mut vm, &key, &mut rng).unwrap();
    assert!(g.is_genesis());
    assert_eq!(g.previous_hash(), BlockHash::zero());
    assert_eq!(g.header().height(), 0);
    assert_eq!(g.transactions().len(), 1);
    assert!(g.verify(&vm));
}

#[test]
fn genesis_is_deterministic_for_equal_seeds() {
    let key = PrivateKey { secret: 0x5eed };
    let mut vm1 = LocalVm::new();
    let mut rng1 = Entropy::new(42);
    let g1 = Block::genesis(&mut vm1, &key, &mut rng1).unwrap();
    let mut vm2 = LocalVm::new();
    let mut rng2 = Entropy::new(42);
    let g2 = Block::genesis(&mut vm2, &key, &mut rng2).unwrap();
    assert_eq!(g1, g2);
}

#[test]
fn genesis_surfaces_vm_failures() {
    let mut vm = FailingVm { code: 5 };
    let key = PrivateKey { secret: 1 };
    let mut rng = Entropy::new(1);
    let r = Block::genesis(&mut vm, &key, &mut rng);
    assert_eq!(r.unwrap_err(), BlockError::Vm(VmError { code: 5 }));
}

#[test]
fn verify_accepts_well_formed_block() {
    let b = sample_block();
    let vm = LocalVm::new();
    assert!(b.verify(&vm));
}

#[test]
fn verify_is_idempotent() {
    let b = sample_block();
    let vm = LocalVm::new();
    let first = b.verify(&vm);
    let second = b.verify(&vm);
    assert_eq!(first, second);
    assert!(first);
}

#[test]
fn verify_rejects_height_zero_non_genesis_header() {
    let txs = sample_transactions();
    let header = Header {
        previous_state_root: BlockHash { value: 0 },
        transactions_root: txs.root(),
        height: 0,
        round: 4,
        timestamp: 9,
    };
    let b = Block::from(BlockHash::zero(), header, txs).unwrap();
    let vm = LocalVm::new();
    assert!(!b.verify(&vm));
}

#[test]
fn verify_rejects_height_zero_with_two_transactions() {
    let txs = sample_transactions();
    let mut header = Header::genesis();
    header.transactions_root = txs.root();
    let b = Block::from(BlockHash::zero(), header, txs).unwrap();
    assert!(!b.is_genesis());
    let vm = LocalVm::new();
    assert!(!b.verify(&vm));
}

#[test]
fn verify_rejects_transactions_the_vm_refuses() {
    let txs = Transactions::new(vec![Transaction::Deploy(Deployment {
        id: 0,
        program_id: ProgramId { value: 3 },
    })]);
    let header = Header {
        previous_state_root: BlockHash { value: 0x1111 },
        transactions_root: txs.root(),
        height: 1,
        round: 3,
        timestamp: 1_660_000_000,
    };
    let b = Block::from(BlockHash { value: 77 }, header, txs).unwrap();
    let vm = LocalVm::new();
    assert!(!b.verify(&vm));
}

#[test]
fn deployments_and_executions_filter_by_kind() {
    let b = sample_block();
    let deploys = b.deployments();
    let executes = b.executions();
    assert_eq!(deploys.len(), 1);
    assert_eq!(executes.len(), 1);
    assert!(matches!(deploys[0], Transaction::Deploy(_)));
    assert!(matches!(executes[0], Transaction::Execute(_)));
}

#[test]
fn address_derivation_is_deterministic() {
    let key = PrivateKey { secret: 0 };
    let a = Address::from_private_key(&key);
    assert_eq!(a.value, 0xa5a5_a5a5_a5a5_a5a5);
    let b = Address::from_private_key(&key);
    assert_eq!(a, b);
}

#[test]
fn entropy_stream_is_deterministic() {
    let mut e1 = Entropy::new(1);
    let mut e2 = Entropy::new(1);
    assert_eq!(e1.next_u64(), 0x4082_2041);
    e2.next_u64();
    assert_eq!(e1.next_u64(), e2.next_u64());
    assert_eq!(e1.state, e2.state);
}
