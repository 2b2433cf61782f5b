//! The NEXUS side of governance: its administrative actions, their
//! classes, and the guide to migrating its unguarded stubs.
use vstd::prelude::*;
use crate::governance::{ActionClass, GovernanceViolation, GuardError};
use crate::text::{bytes_occur, occurs_in};

verus! {

/// Administrative actions of NEXUS / Safe Core.
#[derive(Debug, Clone, Copy, PartialEq, Eq, Structural)]
pub enum NexusAdminAction {
    KernelUpdate,
    SecurityPolicyChange,
    CapsuleModification,
    ComplianceRulesUpdate,
    FlockConfigUpdate,
    WormGraphOperation,
    BundleHashtreeUpdate,
    Other,
}

impl NexusAdminAction {
    /// Kernel and security-policy changes are critical, `Other` stays
    /// other, the rest is operational.
    pub open spec fn class(self) -> ActionClass {
        match self {
            NexusAdminAction::KernelUpdate => ActionClass::Critical,
            NexusAdminAction::SecurityPolicyChange => ActionClass::Critical,
            NexusAdminAction::Other => ActionClass::Other,
            _ => ActionClass::Operational,
        }
    }

    pub fn to_generic(&self) -> (r: ActionClass)
        ensures
            r == self.class(),
    {
        match self {
            NexusAdminAction::KernelUpdate => ActionClass::Critical,
            NexusAdminAction::SecurityPolicyChange => ActionClass::Critical,
            NexusAdminAction::CapsuleModification => ActionClass::Operational,
            NexusAdminAction::ComplianceRulesUpdate => ActionClass::Operational,
            NexusAdminAction::FlockConfigUpdate => ActionClass::Operational,
            NexusAdminAction::WormGraphOperation => ActionClass::Operational,
            NexusAdminAction::BundleHashtreeUpdate => ActionClass::Operational,
            NexusAdminAction::Other => ActionClass::Other,
        }
    }
}

/// Errors of the bridge between NEXUS and governance.
#[derive(Debug)]
pub enum NexusGovernanceError {
    GovernanceViolation(GovernanceViolation),
    GovernanceError(GuardError),
    NexusActionFailed(String),
    ActionNotAudited(String),
}

/// How to migrate NEXUS from its unguarded stubs to governance.
pub struct MigrationGuide;

/// The stubs of NEXUS that still need replacing.
pub const STUBS_TO_REPLACE: [&'static str; 6] = [
    "SafeCoreGuard::execute",
    "SafeCoreGuard::update_kernel",
    "SafeCoreGuard::modify_capsule",
    "SafeCoreGuard::update_compliance",
    "NEXUS::admin_action",
    "NEXUS::privileged_operation",
];

/// The stubs of NEXUS that still need replacing, in order.
pub open spec fn stubs_to_replace() -> Seq<Seq<char>> {
    seq![
        "SafeCoreGuard::execute"@,
        "SafeCoreGuard::update_kernel"@,
        "SafeCoreGuard::modify_capsule"@,
        "SafeCoreGuard::update_compliance"@,
        "NEXUS::admin_action"@,
        "NEXUS::privileged_operation"@,
    ]
}

/// The text `code` contains the text `stub`.
pub open spec fn mentions(code: Seq<char>, stub: Seq<char>) -> bool {
    occurs_in(vstd::utf8::encode_utf8(code), vstd::utf8::encode_utf8(stub))
}

/// The stubs that `code` still mentions, in the order of the list.
pub fn check_migration_status(code: &str) -> (r: Vec<&'static str>)
    ensures
        r@.map_values(|s: &'static str| s@) == stubs_to_replace().filter(|s: Seq<char>| mentions(code@, s)),
{
    let stubs: [&'static str; 6] = STUBS_TO_REPLACE;
    let ghost all = stubs_to_replace();
    assert(stubs@.map_values(|s: &'static str| s@) =~= all);
    let mut out: Vec<&'static str> = Vec::new();
    let mut i: usize = 0;
    assert(all.take(0) =~= Seq::<Seq<char>>::empty());
    proof {
        reveal(Seq::filter);
    }
    while i < 6
        invariant
            0 <= i <= 6,
            all == stubs_to_replace(),
            stubs@.map_values(|s: &'static str| s@) == all,
            out@.map_values(|s: &'static str| s@) == all.take(i as int).filter(
                |s: Seq<char>| mentions(code@, s),
            ),
        decreases 6 - i,
    {
        let stub = stubs[i];
        let hay = code.as_bytes();
        let needle = stub.as_bytes();
        let ghost prev = out@;
        proof {
            assert(all.take(i as int + 1) =~= all.take(i as int).push(stub@));
            all.take(i as int).lemma_filter_push(stub@, |s: Seq<char>| mentions(code@, s));
        }
        if bytes_occur(hay, needle) {
            out.push(stub);
            assert(out@.map_values(|s: &'static str| s@) =~= prev.map_values(|s: &'static str| s@).push(stub@));
        } else {
            assert(out@ == prev);
        }
        i += 1;
    }
    assert(all.take(6) =~= all);
    out
}

} // verus!
