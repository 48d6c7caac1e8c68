//! The block: the hash-chained unit composing a header and a non-empty
//! transaction list, with derived identity `block_hash`; its construction,
//! the genesis bootstrap protocol, and the verifier.

use crate::account::{Address, PrivateKey};
use crate::entropy::Entropy;
use crate::errors::BlockError;
use crate::hashing::{bits_le, hash_bits, push_bits_le, spec_hash_bits, BlockHash};
use crate::header::Header;
use crate::program::{Identifier, Program, Value, GENESIS_SUPPLY};
use crate::transaction::{spec_all_valid, spec_filter_deploys, spec_filter_executes,
    spec_transactions_root, Transaction, Transactions};
use crate::vm::Vm;
use vstd::prelude::*;

verus! {

/// The chaining commitment: the hash of the previous block's hash
/// concatenated bitwise with the header root.
pub open spec fn spec_block_hash_of(previous_hash: BlockHash, root: BlockHash) -> BlockHash {
    BlockHash { value: spec_hash_bits(bits_le(previous_hash.value) + bits_le(root.value)) }
}

/// Computes the chaining commitment.
pub fn compute_block_hash(previous_hash: &BlockHash, root: &BlockHash) -> (r: BlockHash)
    ensures
        r == spec_block_hash_of(*previous_hash, *root),
{
    let mut bits: Vec<bool> = Vec::new();
    push_bits_le(&mut bits, previous_hash.value);
    push_bits_le(&mut bits, root.value);
    proof {
        assert(bits@ =~= bits_le(previous_hash.value) + bits_le(root.value));
    }
    hash_bits(&bits)
}

/// The mathematical value of a block.
pub struct BlockView {
    pub block_hash: BlockHash,
    pub previous_hash: BlockHash,
    pub header: Header,
    pub transactions: Seq<Transaction>,
}

impl BlockView {
    /// The invariant every live block carries: the stored hash is the
    /// chaining commitment over the previous hash and the header root, and
    /// the transaction list is non-empty.
    pub open spec fn wf(self) -> bool {
        &&& self.block_hash == spec_block_hash_of(self.previous_hash, self.header.spec_root())
        &&& self.transactions.len() > 0
    }

    /// Whether the header commits to the transaction list. Construction
    /// assembles whatever parts the caller supplies, so not every live
    /// block satisfies this; both decoders enforce it over and above
    /// [`BlockView::wf`], and the bootstrap establishes it. For a committed
    /// block the stored hash covers every transaction record transitively,
    /// which is what the corruption-detection lemmas rest on.
    pub open spec fn spec_committed(self) -> bool {
        self.header.transactions_root == spec_transactions_root(self.transactions)
    }

    /// The structural genesis predicate: zero previous hash, a genesis
    /// header, and exactly one transaction.
    pub open spec fn spec_is_genesis(self) -> bool {
        &&& self.previous_hash == BlockHash::spec_zero()
        &&& self.header.spec_is_genesis()
        &&& self.transactions.len() == 1
    }

    /// What the verifier decides: the genesis rule at height zero, header
    /// validity, the hash commitment, and acceptance of every transaction by
    /// the machine.
    pub open spec fn spec_verify<V: Vm>(self, vm: V) -> bool {
        &&& self.header.height == 0 ==> self.spec_is_genesis()
        &&& self.header.spec_is_valid()
        &&& self.block_hash == spec_block_hash_of(self.previous_hash, self.header.spec_root())
        &&& spec_all_valid(vm, self.transactions)
    }
}

/// A block of the ledger. Immutable once constructed; every constructor
/// establishes [`BlockView::wf`].
#[derive(Clone, Debug)]
pub struct Block {
    /// The hash of this block.
    pub(crate) block_hash: BlockHash,
    /// The hash of the previous block.
    pub(crate) previous_hash: BlockHash,
    /// The header of the block.
    pub(crate) header: Header,
    /// The transactions in the block.
    pub(crate) transactions: Transactions,
}

impl View for Block {
    type V = BlockView;

    closed spec fn view(&self) -> BlockView {
        BlockView {
            block_hash: self.block_hash,
            previous_hash: self.previous_hash,
            header: self.header,
            transactions: self.transactions@,
        }
    }
}

impl PartialEq for Block {
    fn eq(&self, other: &Block) -> (r: bool)
        ensures
            r == (self@ =~= other@),
    {
        self.block_hash == other.block_hash && self.previous_hash == other.previous_hash
            && self.header == other.header && self.transactions == other.transactions
    }
}

impl vstd::std_specs::cmp::PartialEqSpecImpl for Block {
    open spec fn obeys_eq_spec() -> bool {
        true
    }

    open spec fn eq_spec(&self, other: &Block) -> bool {
        self@ =~= other@
    }
}

impl Block {
    /// Initializes a new block from a given previous hash, header, and
    /// transactions list. Fails exactly on an empty transaction list; on
    /// success the block is assembled from the supplied parts as they are
    /// and carries the derived chaining commitment.
    pub fn from(previous_hash: BlockHash, header: Header, transactions: Transactions) -> (r:
        Result<Block, BlockError>)
        ensures
            transactions@.len() == 0 ==> r == Err::<Block, BlockError>(
                BlockError::EmptyTransactionSet,
            ),
            transactions@.len() > 0 ==> (r matches Ok(b) && b@ == (BlockView {
                block_hash: spec_block_hash_of(previous_hash, header.spec_root()),
                previous_hash,
                header,
                transactions: transactions@,
            })),
            r matches Ok(b) ==> b@.wf(),
    {
        if transactions.is_empty() {
            return Err(BlockError::EmptyTransactionSet);
        }
        let root = header.root();
        let block_hash = compute_block_hash(&previous_hash, &root);
        Ok(Block { block_hash, previous_hash, header, transactions })
    }

    /// Reconstructs a block from decoded parts — a stored hash, the previous
    /// hash, a header and a transaction list — failing with
    /// `CorruptionError` whenever the header's `transactions_root` does not
    /// commit to the list, or the stored hash and the re-derived chaining
    /// commitment disagree. Both codecs' read paths behave like this
    /// function.
    pub fn from_checked(
        stored: BlockHash,
        previous_hash: BlockHash,
        header: Header,
        transactions: Transactions,
    ) -> (r: Result<Block, BlockError>)
        ensures
            transactions@.len() == 0 ==> r == Err::<Block, BlockError>(
                BlockError::EmptyTransactionSet,
            ),
            (transactions@.len() > 0 && (header.transactions_root != spec_transactions_root(
                transactions@,
            ) || stored != spec_block_hash_of(previous_hash, header.spec_root()))) ==> r == Err::<
                Block,
                BlockError,
            >(BlockError::CorruptionError),
            (transactions@.len() > 0 && header.transactions_root == spec_transactions_root(
                transactions@,
            ) && stored == spec_block_hash_of(previous_hash, header.spec_root())) ==> (r matches
                Ok(b) && b@ == (BlockView {
                block_hash: stored,
                previous_hash,
                header,
                transactions: transactions@,
            })),
            r matches Ok(b) ==> b@.wf() && b@.spec_committed(),
    {
        let block = match Block::from(previous_hash, header, transactions) {
            Ok(block) => block,
            Err(e) => {
                return Err(e);
            },
        };
        let txs_root = block.transactions().root();
        if txs_root != block.header().transactions_root {
            return Err(BlockError::CorruptionError);
        }
        if block.hash() != stored {
            return Err(BlockError::CorruptionError);
        }
        Ok(block)
    }

    /// Initializes a new genesis block by driving the machine through the
    /// bootstrap protocol: deploy the canonical program, register its state
    /// with the machine, authorize and execute its entry call, and assemble
    /// the first block over a zero previous hash. The deployment lives on
    /// as machine state; the block itself carries the bootstrap execution
    /// as its single genesis transaction, so the assembled block satisfies
    /// the genesis predicate. The final self-check is defensive: it is
    /// proved to pass, so the only failures a caller can see are machine
    /// failures, surfaced unmodified.
    pub fn genesis<V: Vm>(vm: &mut V, private_key: &PrivateKey, rng: &mut Entropy) -> (r: Result<
        Block,
        BlockError,
    >)
        ensures
            r matches Ok(b) ==> {
                &&& b@.wf()
                &&& b@.spec_committed()
                &&& b@.spec_is_genesis()
                &&& b@.previous_hash == BlockHash::spec_zero()
                &&& b@.header.height == 0
                &&& b@.transactions.len() == 1
                &&& b@.transactions[0] is Execute
            },
            r matches Err(e) ==> e matches BlockError::Vm(_),
    {
        // Initialize the genesis program.
        let program = Program::genesis();
        // Deploy the genesis program.
        let deployment = match vm.deploy(&program, rng) {
            Ok(deployment) => deployment,
            Err(e) => {
                return Err(BlockError::Vm(e));
            },
        };
        // Register the deployed program's state.
        match vm.on_deploy(&deployment) {
            Ok(_) => (),
            Err(e) => {
                return Err(BlockError::Vm(e));
            },
        }
        // Prepare the caller and the fixed two-argument input list.
        let caller = Address::from_private_key(private_key);
        let function_name = Identifier::start();
        let inputs: Vec<Value> = vec![Value::Address(caller), Value::U64(GENESIS_SUPPLY)];
        // Authorize the call to the entry function.
        let authorization = match vm.authorize(
            private_key,
            program.id(),
            &function_name,
            &inputs,
            rng,
        ) {
            Ok(authorization) => authorization,
            Err(e) => {
                return Err(BlockError::Vm(e));
            },
        };
        // Execute the genesis program, discarding the receipt.
        let execution = match vm.execute(authorization, rng) {
            Ok((_, execution)) => execution,
            Err(e) => {
                return Err(BlockError::Vm(e));
            },
        };
        // Assemble the components: the canonical genesis header, rooted in
        // the single execution-kind genesis transaction.
        let txs: Vec<Transaction> = vec![Transaction::Execute(execution)];
        let transactions = Transactions::new(txs);
        let mut header = Header::genesis();
        header.transactions_root = transactions.root();
        let previous_hash = BlockHash::zero();
        // Construct the block.
        let block = match Block::from(previous_hash, header, transactions) {
            Ok(block) => block,
            Err(e) => {
                return Err(e);
            },
        };
        // Re-validate: the constructed block must be a valid genesis block.
        if block.is_genesis() {
            Ok(block)
        } else {
            Err(BlockError::GenesisInvariantViolation)
        }
    }

    /// Returns `true` if the block is well-formed: the genesis rule at
    /// height zero, a valid header, a matching chaining commitment, and a
    /// transaction list the machine accepts. Pure: every failure collapses
    /// to `false`, and equal arguments always decide alike.
    pub fn verify<V: Vm>(&self, vm: &V) -> (r: bool)
        ensures
            r == self@.spec_verify(*vm),
    {
        // If the block is at height zero, it must be a genesis block.
        if self.header.height() == 0 && !self.is_genesis() {
            return false;
        }
        // The header must satisfy its own validity rule.
        if !self.header.is_valid() {
            return false;
        }
        // Recompute the Merkle root of the header.
        let root = self.header.root();
        // The stored hash must equal the recomputed chaining commitment.
        let candidate_hash = compute_block_hash(&self.previous_hash, &root);
        if candidate_hash != self.block_hash {
            return false;
        }
        // The machine must accept every transaction.
        self.transactions.verify(vm)
    }

    /// Returns `true` if the block is a genesis block: zero previous hash, a
    /// genesis header, and exactly one transaction.
    pub fn is_genesis(&self) -> (r: bool)
        ensures
            r == self@.spec_is_genesis(),
    {
        let zero = BlockHash::zero();
        self.previous_hash == zero && self.header.is_genesis() && self.transactions.len() == 1
    }

    /// Returns the block hash.
    pub fn hash(&self) -> (r: BlockHash)
        ensures
            r == self@.block_hash,
    {
        self.block_hash
    }

    /// Returns the previous block hash.
    pub fn previous_hash(&self) -> (r: BlockHash)
        ensures
            r == self@.previous_hash,
    {
        self.previous_hash
    }

    /// Returns the block header.
    pub fn header(&self) -> (r: &Header)
        ensures
            *r == self@.header,
    {
        &self.header
    }

    /// Returns the transactions in the block.
    pub fn transactions(&self) -> (r: &Transactions)
        ensures
            r@ == self@.transactions,
    {
        &self.transactions
    }

    /// Returns the deployment-kind transactions, in order.
    pub fn deployments(&self) -> (r: Vec<Transaction>)
        ensures
            r@ == spec_filter_deploys(self@.transactions),
    {
        self.transactions.deployments()
    }

    /// Returns the execution-kind transactions, in order.
    pub fn executions(&self) -> (r: Vec<Transaction>)
        ensures
            r@ == spec_filter_executes(self@.transactions),
    {
        self.transactions.executions()
    }
}

/// Hash-consistency: every well-formed block stores exactly the chaining
/// commitment over its previous hash and its header root.
pub proof fn lemma_hash_consistency(b: BlockView)
    requires
        b.wf(),
    ensures
        b.block_hash == spec_block_hash_of(b.previous_hash, b.header.spec_root()),
{
}

/// A height-zero block that is not structurally a genesis block — a
/// non-genesis header or a transaction count other than one — never
/// verifies, whatever the machine says.
pub proof fn lemma_verify_rejects_height_zero_non_genesis<V: Vm>(b: BlockView, vm: V)
    requires
        b.header.height == 0,
        !b.spec_is_genesis(),
    ensures
        !b.spec_verify(vm),
{
}

/// A verifying block whose previous hash is replaced by a different value,
/// its stored hash left unchanged, no longer verifies — unless the
/// replacement collides with the block's own previous hash under the
/// chaining commitment, which the hash capability is trusted not to allow.
pub proof fn lemma_verify_rejects_tampered_previous_hash<V: Vm>(
    b: BlockView,
    tampered: BlockView,
    vm: V,
)
    requires
        b.spec_verify(vm),
        tampered == (BlockView { previous_hash: tampered.previous_hash, ..b }),
        tampered.previous_hash != b.previous_hash,
        spec_block_hash_of(tampered.previous_hash, b.header.spec_root()) != spec_block_hash_of(
            b.previous_hash,
            b.header.spec_root(),
        ),
    ensures
        !tampered.spec_verify(vm),
{
}

} // verus!
