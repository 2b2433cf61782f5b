//! Errors of the inference runtime.
use vstd::prelude::*;

verus! {

#[derive(Debug, Clone, Copy, PartialEq, Eq, Structural)]
pub enum RuntimeError {
    InvalidIdentity,
    ReputationError,
    MemoryError,
    ModelError,
    AttestationError,
    ZKError,
}

} // verus!
