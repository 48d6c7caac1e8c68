//! The caller-supplied randomness source handed through to the virtual
//! machine during the genesis bootstrap.

use vstd::prelude::*;

verus! {

/// One shift-register step of the stream.
pub open spec fn spec_entropy_step(x: u64) -> u64 {
    let a = x ^ (x << 13);
    let b = a ^ (a >> 7);
    b ^ (b << 17)
}

/// A deterministic pseudo-random word stream standing in for the caller's
/// randomness source. The bootstrap only hands it through to the virtual
/// machine; nothing in this crate's contracts depends on the words drawn.
#[derive(Clone, Copy, PartialEq, Eq, Structural, Debug)]
pub struct Entropy {
    pub state: u64,
}

impl Entropy {
    pub fn new(seed: u64) -> (r: Entropy)
        ensures
            r.state == seed,
    {
        Entropy { state: seed }
    }

    /// Draws the next word of the stream.
    pub fn next_u64(&mut self) -> (r: u64)
        ensures
            final(self).state == spec_entropy_step(old(self).state),
            r == final(self).state,
    {
        let a = self.state ^ (self.state << 13u64);
        let b = a ^ (a >> 7u64);
        let c = b ^ (b << 17u64);
        self.state = c;
        c
    }
}

} // verus!
