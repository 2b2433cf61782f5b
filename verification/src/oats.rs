//! Policy evaluation: its context, its decisions and its errors.
use vstd::prelude::*;

verus! {

#[derive(Debug, PartialEq, Eq)]
pub enum OatsError {
    InternalError(String),
}

impl OatsError {
    /// The text of the error.
    pub fn text(&self) -> (r: String)
        ensures
            r@ == match self {
                OatsError::InternalError(m) => "OATS Internal Error: "@ + m@,
            },
    {
        match self {
            OatsError::InternalError(m) => {
                let mut s = "OATS Internal Error: ".to_owned();
                s.append(m.as_str());
                s
            },
        }
    }
}

/// What a policy is evaluated against.
pub struct EvaluationContext {
    pub belief_ids: Vec<u64>,
}

/// A policy's verdict.
pub enum PolicyDecision {
    Allow,
    Deny { reason: String },
}

} // verus!
