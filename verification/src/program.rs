//! Programs and program values: what the genesis bootstrap hands to the
//! virtual machine.

use crate::account::Address;
use vstd::prelude::*;

verus! {

/// The fixed identifier of the canonical bootstrap program.
pub const GENESIS_PROGRAM_ID: u64 = 0x6765_6e65_7369_73;

/// The initial token supply minted by the bootstrap call.
pub const GENESIS_SUPPLY: u64 = 1_100_000_000_000_000;

/// The identifier of a program on the ledger.
#[derive(Clone, Copy, PartialEq, Eq, Structural, Debug)]
pub struct ProgramId {
    pub value: u64,
}

/// A program deployable on the virtual machine. Its instructions live inside
/// the machine; this crate reads only its identifier.
#[derive(Clone, Copy, PartialEq, Eq, Structural, Debug)]
pub struct Program {
    pub id: ProgramId,
}

impl Program {
    /// The canonical, version-pinned bootstrap program.
    pub fn genesis() -> (r: Program)
        ensures
            r == Program::spec_genesis(),
    {
        Program { id: ProgramId { value: GENESIS_PROGRAM_ID } }
    }

    pub open spec fn spec_genesis() -> Program {
        Program { id: ProgramId { value: GENESIS_PROGRAM_ID } }
    }

    /// Returns the program's identifier.
    pub fn id(&self) -> (r: ProgramId)
        ensures
            r == self.id,
    {
        self.id
    }
}

/// The name of a function of a program.
#[derive(Clone, PartialEq, Eq, Debug)]
pub struct Identifier {
    pub name: Vec<u8>,
}

/// The name of the bootstrap entry function, `start`.
pub open spec fn spec_start_identifier() -> Seq<u8> {
    seq![115u8, 116u8, 97u8, 114u8, 116u8]
}

impl Identifier {
    /// The identifier of the bootstrap entry function.
    pub fn start() -> (r: Identifier)
        ensures
            r.name@ == spec_start_identifier(),
    {
        let name: Vec<u8> = vec![115u8, 116u8, 97u8, 114u8, 116u8];
        Identifier { name }
    }
}

/// A program value: the tagged union of inputs a call can take. The
/// bootstrap call takes the caller's address and a token amount.
#[derive(Clone, Copy, PartialEq, Eq, Structural, Debug)]
pub enum Value {
    Address(Address),
    U64(u64),
}

} // verus!
