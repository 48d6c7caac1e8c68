//! Accounts: the signing key that authorizes the bootstrap call and the
//! address derived from it.

use vstd::prelude::*;

verus! {

/// A signing key. The production key is a scalar of the network's curve; here
/// it is carried as a plain word, and the address derivation below stands in
/// for the curve-point derivation.
#[derive(Clone, Copy, PartialEq, Eq, Structural, Debug)]
pub struct PrivateKey {
    pub secret: u64,
}

/// The account address derived from a signing key.
#[derive(Clone, Copy, PartialEq, Eq, Structural, Debug)]
pub struct Address {
    pub value: u64,
}

/// The deterministic derivation of an address from a signing key.
pub open spec fn spec_address_of(key: PrivateKey) -> Address {
    Address { value: (key.secret ^ (key.secret << 31)) ^ 0xa5a5_a5a5_a5a5_a5a5 }
}

impl Address {
    /// Derives the caller address from a signing key.
    pub fn from_private_key(key: &PrivateKey) -> (r: Address)
        ensures
            r == spec_address_of(*key),
    {
        Address { value: (key.secret ^ (key.secret << 31u64)) ^ 0xa5a5_a5a5_a5a5_a5a5 }
    }
}

} // verus!
