//! Transactions and the ordered transaction list of a block.

use crate::hashing::{bits_le, hash_bits, lemma_hash_bits_single_flip, push_bits_le,
    spec_hash_bits, BlockHash};
use crate::program::ProgramId;
use crate::vm::Vm;
use vstd::prelude::*;

verus! {

/// The artifact of compiling and proving a program for on-ledger
/// registration. The proof itself lives inside the virtual machine; this
/// crate carries the artifact's identity.
#[derive(Clone, Copy, PartialEq, Eq, Structural, Debug)]
pub struct Deployment {
    pub id: u64,
    pub program_id: ProgramId,
}

/// The artifact of running an authorized program invocation, carrying the
/// identity of its correctness certificate.
#[derive(Clone, Copy, PartialEq, Eq, Structural, Debug)]
pub struct Execution {
    pub id: u64,
    pub certificate: u64,
}

/// A signed capability permitting one invocation of one program function.
#[derive(Clone, Copy, PartialEq, Eq, Structural, Debug)]
pub struct Authorization {
    pub nonce: u64,
}

/// The response value accompanying an execution; the bootstrap discards it.
#[derive(Clone, Copy, PartialEq, Eq, Structural, Debug)]
pub struct Receipt {
    pub output: u64,
}

/// A transaction: a deployment artifact or an execution artifact, wrapped
/// for inclusion in a block.
#[derive(Clone, Copy, PartialEq, Eq, Structural, Debug)]
pub enum Transaction {
    Deploy(Deployment),
    Execute(Execution),
}

impl Transaction {
    pub open spec fn spec_is_deploy(self) -> bool {
        self is Deploy
    }

    pub open spec fn spec_is_execute(self) -> bool {
        self is Execute
    }

    /// Returns `true` if the transaction wraps a deployment.
    pub fn is_deploy(&self) -> (r: bool)
        ensures
            r == self.spec_is_deploy(),
    {
        match self {
            Transaction::Deploy(_) => true,
            Transaction::Execute(_) => false,
        }
    }

    /// Returns `true` if the transaction wraps an execution.
    pub fn is_execute(&self) -> (r: bool)
        ensures
            r == self.spec_is_execute(),
    {
        match self {
            Transaction::Deploy(_) => false,
            Transaction::Execute(_) => true,
        }
    }
}

/// The transactions of a block in kept deployment order.
pub open spec fn spec_filter_deploys(s: Seq<Transaction>) -> Seq<Transaction>
    decreases s.len(),
{
    if s.len() == 0 {
        Seq::empty()
    } else if s.last() is Deploy {
        spec_filter_deploys(s.drop_last()).push(s.last())
    } else {
        spec_filter_deploys(s.drop_last())
    }
}

/// The transactions of a block in kept execution order.
pub open spec fn spec_filter_executes(s: Seq<Transaction>) -> Seq<Transaction>
    decreases s.len(),
{
    if s.len() == 0 {
        Seq::empty()
    } else if s.last() is Execute {
        spec_filter_executes(s.drop_last()).push(s.last())
    } else {
        spec_filter_executes(s.drop_last())
    }
}

/// Whether the machine accepts every transaction of the list.
pub open spec fn spec_all_valid<V: Vm>(vm: V, s: Seq<Transaction>) -> bool {
    forall|i: int| 0 <= i < s.len() ==> vm.tx_valid(#[trigger] s[i])
}

/// The words of one transaction, for the list commitment: a kind word and
/// the record's two payload words.
pub open spec fn spec_tx_bits(t: Transaction) -> Seq<bool> {
    match t {
        Transaction::Deploy(d) => bits_le(0u64) + bits_le(d.id) + bits_le(d.program_id.value),
        Transaction::Execute(e) => bits_le(1u64) + bits_le(e.id) + bits_le(e.certificate),
    }
}

/// The concatenated words of the whole list, in order.
pub open spec fn spec_txs_bits(s: Seq<Transaction>) -> Seq<bool>
    decreases s.len(),
{
    if s.len() == 0 {
        Seq::empty()
    } else {
        spec_txs_bits(s.drop_last()) + spec_tx_bits(s.last())
    }
}

/// The commitment to an ordered transaction list: the hash capability's
/// fold over the concatenated words of every transaction. A block's header
/// must carry exactly this value as its `transactions_root`, which ties the
/// block hash transitively to every record.
pub open spec fn spec_transactions_root(s: Seq<Transaction>) -> BlockHash {
    BlockHash { value: spec_hash_bits(spec_txs_bits(s)) }
}

/// Every transaction contributes 192 bit positions to the commitment.
pub proof fn lemma_txs_bits_len(s: Seq<Transaction>)
    ensures
        spec_txs_bits(s).len() == 192 * s.len(),
    decreases s.len(),
{
    if s.len() > 0 {
        lemma_txs_bits_len(s.drop_last());
    }
}

/// Swapping a deployment record's kind for the execution kind, its payload
/// words kept, changes the transaction's committed words in exactly the
/// first position.
pub proof fn lemma_tx_bits_kind_swap(d: Deployment)
    ensures
        spec_tx_bits(Transaction::Deploy(d)).len() == 192,
        spec_tx_bits(
            Transaction::Execute(Execution { id: d.id, certificate: d.program_id.value }),
        ).len() == 192,
        spec_tx_bits(Transaction::Deploy(d))[0] != spec_tx_bits(
            Transaction::Execute(Execution { id: d.id, certificate: d.program_id.value }),
        )[0],
        forall|q: int|
            0 < q < 192 ==> spec_tx_bits(Transaction::Deploy(d))[q] == spec_tx_bits(
                Transaction::Execute(Execution { id: d.id, certificate: d.program_id.value }),
            )[q],
{
    assert forall|j: u64| j < 64 implies ((0u64 >> j) & 1 == 1) == false by {
        assert((0u64 >> j) & 1 != 1) by (bit_vector);
    }
    assert forall|j: u64| 0 < j < 64 implies ((1u64 >> j) & 1 == 1) == false by {
        assert(0u64 < j < 64 ==> (1u64 >> j) & 1 != 1) by (bit_vector);
    }
    assert((1u64 >> 0) & 1 == 1) by (bit_vector);
    assert(bits_le(0u64)[0] != bits_le(1u64)[0]);
    assert forall|q: int| 0 < q < 64 implies bits_le(0u64)[q] == bits_le(1u64)[q] by {
        assert(((0u64 >> (q as u64)) & 1 == 1) == false);
        assert(((1u64 >> (q as u64)) & 1 == 1) == false);
    }
}

/// Replacing one transaction of a list by one whose committed words differ
/// in exactly one position changes the whole list's committed words in
/// exactly that position, shifted to the transaction's place.
pub proof fn lemma_txs_bits_single_tx_flip(
    t1: Seq<Transaction>,
    t2: Seq<Transaction>,
    i: int,
    p: int,
)
    requires
        t1.len() == t2.len(),
        0 <= i < t1.len(),
        forall|j: int| 0 <= j < t1.len() && j != i ==> t1[j] == t2[j],
        0 <= p < 192,
        spec_tx_bits(t1[i])[p] != spec_tx_bits(t2[i])[p],
        forall|q: int| 0 <= q < 192 && q != p ==> spec_tx_bits(t1[i])[q] == spec_tx_bits(
            t2[i],
        )[q],
    ensures
        spec_txs_bits(t1).len() == spec_txs_bits(t2).len(),
        spec_txs_bits(t1)[192 * i + p] != spec_txs_bits(t2)[192 * i + p],
        forall|q: int|
            0 <= q < spec_txs_bits(t1).len() && q != 192 * i + p ==> spec_txs_bits(t1)[q]
                == spec_txs_bits(t2)[q],
    decreases t1.len(),
{
    lemma_txs_bits_len(t1);
    lemma_txs_bits_len(t2);
    lemma_txs_bits_len(t1.drop_last());
    lemma_txs_bits_len(t2.drop_last());
    if i == t1.len() - 1 {
        assert(t1.drop_last() =~= t2.drop_last());
    } else {
        assert(t1.drop_last()[i] == t1[i]);
        assert(t2.drop_last()[i] == t2[i]);
        lemma_txs_bits_single_tx_flip(t1.drop_last(), t2.drop_last(), i, p);
        assert(t1.last() == t2.last());
    }
}

/// The list commitment detects every change of one transaction whose
/// committed words differ in a single position — a kind swap, or one bit of
/// one payload word.
pub proof fn lemma_transactions_root_single_flip(
    t1: Seq<Transaction>,
    t2: Seq<Transaction>,
    i: int,
    p: int,
)
    requires
        t1.len() == t2.len(),
        0 <= i < t1.len(),
        forall|j: int| 0 <= j < t1.len() && j != i ==> t1[j] == t2[j],
        0 <= p < 192,
        spec_tx_bits(t1[i])[p] != spec_tx_bits(t2[i])[p],
        forall|q: int| 0 <= q < 192 && q != p ==> spec_tx_bits(t1[i])[q] == spec_tx_bits(
            t2[i],
        )[q],
    ensures
        spec_transactions_root(t1) != spec_transactions_root(t2),
{
    lemma_txs_bits_single_tx_flip(t1, t2, i, p);
    lemma_txs_bits_len(t1);
    assert(192 * i + p < 192 * t1.len());
    lemma_hash_bits_single_flip(spec_txs_bits(t1), spec_txs_bits(t2), 192 * i + p);
}

/// The ordered, non-empty-checkable transaction list of a block. Insertion
/// order is significant: it is kept by the codecs and by the kind filters.
#[derive(Clone, Debug)]
pub struct Transactions {
    txs: Vec<Transaction>,
}

impl View for Transactions {
    type V = Seq<Transaction>;

    closed spec fn view(&self) -> Seq<Transaction> {
        self.txs@
    }
}

impl PartialEq for Transactions {
    fn eq(&self, other: &Transactions) -> (r: bool)
        ensures
            r == (self@ =~= other@),
    {
        if self.txs.len() != other.txs.len() {
            return false;
        }
        let mut i: usize = 0;
        while i < self.txs.len()
            invariant
                i <= self.txs@.len(),
                self.txs@.len() == other.txs@.len(),
                forall|j: int| 0 <= j < i ==> self.txs@[j] == other.txs@[j],
            decreases self.txs@.len() - i,
        {
            if self.txs[i] != other.txs[i] {
                return false;
            }
            i = i + 1;
        }
        proof {
            assert(self@ =~= other@);
        }
        true
    }
}

impl vstd::std_specs::cmp::PartialEqSpecImpl for Transactions {
    open spec fn obeys_eq_spec() -> bool {
        true
    }

    open spec fn eq_spec(&self, other: &Transactions) -> bool {
        self@ =~= other@
    }
}

impl Transactions {
    /// Builds the list from an ordered sequence of transactions.
    pub fn new(txs: Vec<Transaction>) -> (r: Transactions)
        ensures
            r@ == txs@,
    {
        Transactions { txs }
    }

    /// Returns `true` if the list holds no transaction.
    pub fn is_empty(&self) -> (r: bool)
        ensures
            r == (self@.len() == 0),
    {
        self.txs.len() == 0
    }

    /// Returns the number of transactions.
    pub fn len(&self) -> (r: usize)
        ensures
            r == self@.len(),
    {
        self.txs.len()
    }

    /// Returns the transaction at `i`.
    pub fn get(&self, i: usize) -> (r: &Transaction)
        requires
            i < self@.len(),
        ensures
            *r == self@[i as int],
    {
        &self.txs[i]
    }

    /// Verifies every transaction against the machine: `true` exactly when
    /// the machine accepts them all.
    pub fn verify<V: Vm>(&self, vm: &V) -> (r: bool)
        ensures
            r == spec_all_valid(*vm, self@),
    {
        let mut i: usize = 0;
        while i < self.txs.len()
            invariant
                i <= self.txs@.len(),
                forall|j: int| 0 <= j < i ==> vm.tx_valid(#[trigger] self.txs@[j]),
            decreases self.txs@.len() - i,
        {
            if !vm.check_transaction(&self.txs[i]) {
                return false;
            }
            i = i + 1;
        }
        true
    }

    /// Computes the commitment to the list: the value a containing block's
    /// header must carry as its `transactions_root`.
    pub fn root(&self) -> (r: BlockHash)
        ensures
            r == spec_transactions_root(self@),
    {
        let mut bits: Vec<bool> = Vec::new();
        let mut i: usize = 0;
        while i < self.txs.len()
            invariant
                i <= self.txs@.len(),
                bits@ == spec_txs_bits(self.txs@.take(i as int)),
            decreases self.txs@.len() - i,
        {
            let tx = self.txs[i];
            match tx {
                Transaction::Deploy(d) => {
                    push_bits_le(&mut bits, 0u64);
                    push_bits_le(&mut bits, d.id);
                    push_bits_le(&mut bits, d.program_id.value);
                },
                Transaction::Execute(e) => {
                    push_bits_le(&mut bits, 1u64);
                    push_bits_le(&mut bits, e.id);
                    push_bits_le(&mut bits, e.certificate);
                },
            }
            i = i + 1;
            proof {
                assert(self.txs@.take(i as int).drop_last() =~= self.txs@.take(i - 1));
                assert(self.txs@.take(i as int).last() == self.txs@[i - 1]);
                assert(bits@ =~= spec_txs_bits(self.txs@.take(i as int)));
            }
        }
        proof {
            assert(self.txs@.take(self.txs@.len() as int) =~= self.txs@);
        }
        hash_bits(&bits)
    }

    /// Returns the deployment-kind transactions, in order.
    pub fn deployments(&self) -> (r: Vec<Transaction>)
        ensures
            r@ == spec_filter_deploys(self@),
    {
        let mut out: Vec<Transaction> = Vec::new();
        let mut i: usize = 0;
        while i < self.txs.len()
            invariant
                i <= self.txs@.len(),
                out@ == spec_filter_deploys(self.txs@.take(i as int)),
            decreases self.txs@.len() - i,
        {
            let tx = self.txs[i];
            if tx.is_deploy() {
                out.push(tx);
            }
            i = i + 1;
            proof {
                assert(self.txs@.take(i as int).drop_last() =~= self.txs@.take(i - 1));
                assert(self.txs@.take(i as int).last() == self.txs@[i - 1]);
            }
        }
        proof {
            assert(self.txs@.take(self.txs@.len() as int) =~= self.txs@);
        }
        out
    }

    /// Returns the execution-kind transactions, in order.
    pub fn executions(&self) -> (r: Vec<Transaction>)
        ensures
            r@ == spec_filter_executes(self@),
    {
        let mut out: Vec<Transaction> = Vec::new();
        let mut i: usize = 0;
        while i < self.txs.len()
            invariant
                i <= self.txs@.len(),
                out@ == spec_filter_executes(self.txs@.take(i as int)),
            decreases self.txs@.len() - i,
        {
            let tx = self.txs[i];
            if tx.is_execute() {
                out.push(tx);
            }
            i = i + 1;
            proof {
                assert(self.txs@.take(i as int).drop_last() =~= self.txs@.take(i - 1));
                assert(self.txs@.take(i as int).last() == self.txs@[i - 1]);
            }
        }
        proof {
            assert(self.txs@.take(self.txs@.len() as int) =~= self.txs@);
        }
        out
    }
}

} // verus!
