//! Messages of the bridge to the ZK verifier and to Nostr, and the
//! bridge's verification keys.
use vstd::prelude::*;

verus! {

pub struct ZkVerifyRequest {
    pub circuit_id: String,
    pub agent_id: String,
    pub design_hash: String,
    pub proof_bytes: Vec<u8>,
    pub public_inputs: Vec<u8>,
}

pub struct ZkVerifyResponse {
    pub valid: bool,
    pub circuit_id: String,
    pub verification_time_ms: String,
    pub error: Option<String>,
    pub verification_hash: Vec<u8>,
}

pub struct NostrPublishRequest {
    pub project_id: String,
    pub design_hash: String,
    pub wormgraph_json: String,
    pub tags: Vec<Vec<String>>,
    pub relay_urls: Vec<String>,
}

pub struct NostrPublishResponse {
    pub success: bool,
    pub event_id_hex: String,
    pub relay_urls: Vec<String>,
    pub error: Option<String>,
    pub published_at: u64,
}

/// A verification key: its hash and the program it verifies.
#[derive(Clone)]
pub struct VerificationKey {
    pub hash: String,
    pub elf: Vec<u8>,
}

/// Stands in for the WormGraph provenance log.
pub struct WormgraphMock;

} // verus!
