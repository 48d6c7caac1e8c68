//! The error taxonomy: construction-time and decoding failures are hard,
//! typed errors; verification never propagates one.

use vstd::prelude::*;

verus! {

/// An infrastructure-level failure inside the virtual machine capability
/// (deployment, authorization or execution). Opaque to this crate beyond its
/// numeric code; surfaced unmodified, never retried.
#[derive(Clone, Copy, PartialEq, Eq, Structural, Debug)]
pub struct VmError {
    pub code: u64,
}

/// A failure of block construction, bootstrap or decoding.
#[derive(Clone, Copy, PartialEq, Eq, Structural, Debug)]
pub enum BlockError {
    /// A block may not be built over an empty transaction list.
    EmptyTransactionSet,
    /// The bootstrap's final self-check found that the assembled first block
    /// does not satisfy the genesis predicate.
    GenesisInvariantViolation,
    /// A virtual-machine call failed during the bootstrap.
    Vm(VmError),
    /// An encoded block carried a version tag other than zero.
    UnsupportedVersion,
    /// The stored block hash and the hash re-derived from the decoded fields
    /// disagree.
    CorruptionError,
    /// The input ended before the announced fields did.
    Truncated,
    /// Bytes remained after the last announced field.
    TrailingData,
    /// A transaction record carried a kind tag that names no kind.
    InvalidTransactionKind,
    /// A structured-text document did not follow the expected grammar.
    MalformedDocument,
}

} // verus!
