//! Merkle proofs of inclusion.
use vstd::prelude::*;

verus! {

pub type MerkleHash = [u8; 32];

#[derive(Debug, Clone, Copy, PartialEq, Eq, Structural)]
pub enum MerkleError {
    EmptyTree,
    InvalidProof,
}

/// A leaf and the sibling hashes on its path to the root.
#[derive(Debug, Clone)]
pub struct Proof {
    pub leaf: MerkleHash,
    pub siblings: Vec<MerkleHash>,
}

impl Proof {
    /// Whether the proof leads to `root`. Verification is mocked: every
    /// proof is accepted.
    pub fn verify(&self, root: MerkleHash) -> (r: bool)
        ensures
            r,
    {
        true
    }
}

} // verus!
