//! The entities of the core and the state that holds them.
use vstd::prelude::*;
use std::collections::HashMap;

verus! {

pub type EvidenceID = u64;

pub type ArtifactID = u64;

pub type ClaimID = u64;

pub type DecisionID = u64;

pub type Hash = String;

pub type Payload = String;

#[derive(Debug, Clone, PartialEq)]
pub struct Evidence {
    pub artifact_id: ArtifactID,
    pub content: Payload,
    pub signature: Hash,
    pub timestamp: u64,
    pub parent_hash: Option<Hash>,
    pub hash: Hash,
}

#[derive(Debug, Clone, PartialEq)]
pub struct Artifact {
    pub payload: Payload,
    pub metadata: String,
    pub hash: Hash,
}

#[derive(Debug, Clone, PartialEq)]
pub struct Claim {
    pub proposition: String,
    pub evidence_ids: Vec<EvidenceID>,
}

#[derive(Debug, Clone, PartialEq)]
pub struct Belief {
    pub claim_id: ClaimID,
    pub confidence: u8,
    pub justification: String,
}

#[derive(Debug, Clone, PartialEq)]
pub struct Decision {
    pub goal: String,
    pub belief_ids: Vec<u64>,
    pub timestamp: u64,
}

/// A transition of the state.
pub enum Event {
    ArtifactAdded(ArtifactID, Payload, String),
    EvidenceAdded(EvidenceID, ArtifactID, Payload, Hash, u64, Option<Hash>),
    ClaimAdded(ClaimID, String, Vec<EvidenceID>),
    BeliefAdded(u64, ClaimID, u8, String),
    DecisionAdded(DecisionID, String, Vec<u64>, u64),
}

/// The state: every entity by its identifier.
#[derive(Debug, Clone)]
pub struct State {
    pub artifacts: HashMap<ArtifactID, Artifact>,
    pub evidences: HashMap<EvidenceID, Evidence>,
    pub claims: HashMap<ClaimID, Claim>,
    pub beliefs: HashMap<u64, Belief>,
    pub decisions: HashMap<DecisionID, Decision>,
}

/// The state as maps.
pub struct StateView {
    pub artifacts: Map<ArtifactID, Artifact>,
    pub evidences: Map<EvidenceID, Evidence>,
    pub claims: Map<ClaimID, Claim>,
    pub beliefs: Map<u64, Belief>,
    pub decisions: Map<DecisionID, Decision>,
}

impl View for State {
    type V = StateView;

    open spec fn view(&self) -> StateView {
        StateView {
            artifacts: self.artifacts@,
            evidences: self.evidences@,
            claims: self.claims@,
            beliefs: self.beliefs@,
            decisions: self.decisions@,
        }
    }
}

impl State {
    /// The empty state.
    pub fn new() -> (r: Self)
        ensures
            r@.artifacts == Map::<ArtifactID, Artifact>::empty(),
            r@.evidences == Map::<EvidenceID, Evidence>::empty(),
            r@.claims == Map::<ClaimID, Claim>::empty(),
            r@.beliefs == Map::<u64, Belief>::empty(),
            r@.decisions == Map::<DecisionID, Decision>::empty(),
    {
        State {
            artifacts: HashMap::new(),
            evidences: HashMap::new(),
            claims: HashMap::new(),
            beliefs: HashMap::new(),
            decisions: HashMap::new(),
        }
    }
}

impl Default for State {
    fn default() -> (r: Self)
        ensures
            r@.artifacts == Map::<ArtifactID, Artifact>::empty(),
            r@.evidences == Map::<EvidenceID, Evidence>::empty(),
            r@.claims == Map::<ClaimID, Claim>::empty(),
            r@.beliefs == Map::<u64, Belief>::empty(),
            r@.decisions == Map::<DecisionID, Decision>::empty(),
    {
        State::new()
    }
}

} // verus!
