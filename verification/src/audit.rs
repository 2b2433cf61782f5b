//! Phases of the security audit.
use vstd::prelude::*;

verus! {

/// Independent re-verification of the findings.
pub struct IndependentVerificationPhase;

/// Reconnaissance of the target's architecture.
pub struct ReconnaissancePhase;

} // verus!
