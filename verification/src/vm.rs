//! The virtual-machine capability: deployment, authorization and execution
//! of programs, and per-transaction proof verification. Injected into the
//! bootstrap and the verifier rather than threaded through every type.

use crate::account::PrivateKey;
use crate::entropy::Entropy;
use crate::errors::VmError;
use crate::program::{Identifier, Program, ProgramId, Value};
use crate::transaction::{Authorization, Deployment, Execution, Receipt, Transaction};
use vstd::prelude::*;

verus! {

/// The compute capability this crate consumes. Deployment, authorization and
/// execution perform proof generation and may fail for infrastructure
/// reasons; nothing is promised of the artifacts they return. Acceptance of
/// a transaction is the implementation's own predicate [`Vm::tx_valid`],
/// which [`Vm::check_transaction`] decides.
pub trait Vm: Sized {
    /// Which transactions this machine accepts as proof-carrying and
    /// state-consistent.
    spec fn tx_valid(&self, tx: Transaction) -> bool;

    /// Compiles and proves `program`, yielding a deployment artifact.
    fn deploy(&mut self, program: &Program, rng: &mut Entropy) -> (r: Result<
        Deployment,
        VmError,
    >);

    /// Registers a deployed program's state with the machine.
    fn on_deploy(&mut self, deployment: &Deployment) -> (r: Result<(), VmError>);

    /// Signs a capability to invoke `function` of `program_id` on `inputs`.
    fn authorize(
        &mut self,
        private_key: &PrivateKey,
        program_id: ProgramId,
        function: &Identifier,
        inputs: &Vec<Value>,
        rng: &mut Entropy,
    ) -> (r: Result<Authorization, VmError>);

    /// Runs an authorized invocation, yielding its receipt and the execution
    /// artifact.
    fn execute(&mut self, authorization: Authorization, rng: &mut Entropy) -> (r: Result<
        (Receipt, Execution),
        VmError,
    >);

    /// Decides [`Vm::tx_valid`] for one transaction.
    fn check_transaction(&self, tx: &Transaction) -> (r: bool)
        ensures
            r == self.tx_valid(*tx),
    ;
}

/// A deterministic in-process machine: it fabricates artifacts from the
/// randomness stream instead of proving, and accepts every artifact-backed
/// transaction whose identity is nonzero. It stands in for the proving
/// machine in tests and examples.
#[derive(Clone, Copy, PartialEq, Eq, Structural, Debug)]
pub struct LocalVm {
    /// How many programs have been registered.
    pub registered: u64,
}

impl LocalVm {
    pub fn new() -> (r: LocalVm)
        ensures
            r.registered == 0,
    {
        LocalVm { registered: 0 }
    }
}

impl Vm for LocalVm {
    open spec fn tx_valid(&self, tx: Transaction) -> bool {
        match tx {
            Transaction::Deploy(d) => d.id != 0,
            Transaction::Execute(e) => e.id != 0,
        }
    }

    fn deploy(&mut self, program: &Program, rng: &mut Entropy) -> (r: Result<
        Deployment,
        VmError,
    >) {
        let id = rng.next_u64() | 1;
        Ok(Deployment { id, program_id: program.id })
    }

    fn on_deploy(&mut self, deployment: &Deployment) -> (r: Result<(), VmError>) {
        if self.registered < 0xffff_ffff_ffff_ffff {
            self.registered = self.registered + 1;
        }
        Ok(())
    }

    fn authorize(
        &mut self,
        private_key: &PrivateKey,
        program_id: ProgramId,
        function: &Identifier,
        inputs: &Vec<Value>,
        rng: &mut Entropy,
    ) -> (r: Result<Authorization, VmError>) {
        Ok(Authorization { nonce: rng.next_u64() })
    }

    fn execute(&mut self, authorization: Authorization, rng: &mut Entropy) -> (r: Result<
        (Receipt, Execution),
        VmError,
    >) {
        let id = rng.next_u64() | 1;
        Ok((Receipt { output: authorization.nonce }, Execution { id, certificate: rng.next_u64() }))
    }

    fn check_transaction(&self, tx: &Transaction) -> (r: bool) {
        match tx {
            Transaction::Deploy(d) => d.id != 0,
            Transaction::Execute(e) => e.id != 0,
        }
    }
}

/// A machine whose every call fails with the given code, and which accepts
/// no transaction: the unreachable-infrastructure edge of the capability.
#[derive(Clone, Copy, PartialEq, Eq, Structural, Debug)]
pub struct FailingVm {
    pub code: u64,
}

impl Vm for FailingVm {
    open spec fn tx_valid(&self, tx: Transaction) -> bool {
        false
    }

    fn deploy(&mut self, program: &Program, rng: &mut Entropy) -> (r: Result<
        Deployment,
        VmError,
    >) {
        Err(VmError { code: self.code })
    }

    fn on_deploy(&mut self, deployment: &Deployment) -> (r: Result<(), VmError>) {
        Err(VmError { code: self.code })
    }

    fn authorize(
        &mut self,
        private_key: &PrivateKey,
        program_id: ProgramId,
        function: &Identifier,
        inputs: &Vec<Value>,
        rng: &mut Entropy,
    ) -> (r: Result<Authorization, VmError>) {
        Err(VmError { code: self.code })
    }

    fn execute(&mut self, authorization: Authorization, rng: &mut Entropy) -> (r: Result<
        (Receipt, Execution),
        VmError,
    >) {
        Err(VmError { code: self.code })
    }

    fn check_transaction(&self, tx: &Transaction) -> (r: bool) {
        false
    }
}

} // verus!
