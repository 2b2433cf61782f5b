//! Permissions of agents per operation.
use vstd::prelude::*;

verus! {

/// A decentralised identifier.
#[derive(Debug, Clone)]
pub struct Did(pub String);

impl Did {
    pub fn to_string(&self) -> (r: String)
        ensures
            r == self.0,
    {
        self.0.clone()
    }
}

/// How an operation may be performed.
#[derive(Debug, Clone, Copy, PartialEq, Eq, Structural)]
pub enum PermissionLevel {
    /// Runs automatically.
    Allowed,
    /// Needs the user's confirmation.
    Restricted,
    /// Forbidden.
    Denied,
}

/// The permission granted for one operation.
#[derive(Debug, Clone)]
pub struct PermissionEntry {
    pub operation: String,
    pub level: PermissionLevel,
    pub scope: Option<String>,
    pub justification: String,
}

/// The permissions of an agent, signed by it.
#[derive(Debug, Clone)]
pub struct AgentPermissions {
    pub agent_did: Did,
    pub operations: Vec<PermissionEntry>,
    pub signature: Vec<u8>,
}

impl AgentPermissions {
    /// Whether `op` on `target` is permitted. The check is mocked: every
    /// operation is.
    pub fn check(&self, op: &str, target: &str) -> (r: Result<(), String>)
        ensures
            r is Ok,
    {
        Ok(())
    }
}

} // verus!
