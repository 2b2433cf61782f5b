use arkhe::picoads::PicoAdsClient;
use arkhe::api::{auth_info_from_headers, check_proposal_author, proposal_id_from, AuthenticatedDid, ProposalIdentifier};
use arkhe::cognitive::{validate_gradient, verify_gradient, GradientProof, ReflectionEngine, STARKVerifier, WorkingMemory, Lean4Verifier, BFTClient};
use arkhe::llm_core::{CathedralCore, ModelTier};
use arkhe::merkle::Proof;
use arkhe::multichain::{BitsecVulnerability, FastBrain, SecondSelfOrchestrator, WormGraphIndexer};
use arkhe::nostr::NostrReplicator;
use arkhe::permissions::{AgentPermissions, Did};
use arkhe::resilience::CircuitBreaker;
use arkhe::server::DeployResponse;
use std::sync::Arc;
use std::time::Duration;

#[test]
fn headers_authenticate_with_hex_signature() {
    let a = AuthenticatedDid::from_headers(Some("did:x"), Some(b"0aFF")).ok().unwrap();
    assert_eq!(a.did, "did:x");
    assert_eq!(a.signature, vec![0x0a, 0xff]);
    assert!(AuthenticatedDid::from_headers(Some("did:x"), Some(b"0aF")).is_err());
    assert!(AuthenticatedDid::from_headers(Some("did:x"), Some(b"zz")).is_err());
    assert!(AuthenticatedDid::from_headers(None, Some(b"00")).is_err());
    assert!(AuthenticatedDid::from_headers(Some("did:x"), None).is_err());
}

#[test]
fn middleware_attaches_only_complete_auth() {
    let info = auth_info_from_headers(Some("d"), Some(b"")).unwrap();
    assert!(info.signature.is_empty());
    assert!(auth_info_from_headers(Some("d"), Some(b"g0")).is_none());
}

#[test]
fn proposal_identifier_selection() {
    assert_eq!(proposal_id_from(Some("p1".to_string()), None).ok(), Some("p1".to_string()));
    let q = ProposalIdentifier::Query { id: "q1".to_string() };
    assert_eq!(proposal_id_from(None, Some(q)).ok(), Some("q1".to_string()));
    let b = ProposalIdentifier::Body { id: "b1".to_string() };
    assert!(proposal_id_from(None, Some(b)).is_err());
    assert!(proposal_id_from(None, None).is_err());
    assert!(check_proposal_author("did:a", "did:a", true).is_ok());
    assert!(check_proposal_author("did:a", "did:b", true).is_err());
    assert!(check_proposal_author("did:a", "did:a", false).is_err());
}

#[test]
fn gradient_proofs_are_accepted() {
    let p = GradientProof { proof_bytes: vec![1, 2, 3, 4], signature: vec![5, 6, 7, 8] };
    assert_eq!(verify_gradient(&p), Ok(true));
    assert!(validate_gradient(&p));
    assert!(STARKVerifier::new().verify(&p));
}

#[test]
fn reflection_mocks() {
    let engine = ReflectionEngine::new(Arc::new(WorkingMemory {}), Arc::new(Lean4Verifier {}), Arc::new(BFTClient {}));
    assert_eq!(engine.compute_discrepancies("a", "b"), vec!["delta".to_string()]);
    let mut insight = engine.generate_insight("delta".to_string());
    assert!(insight.verified_proof().is_none());
    insight.set_proof("qed".to_string());
    assert_eq!(insight.verified_proof(), Some(&"qed".to_string()));
}

#[test]
fn mock_generation_by_prompt() {
    let core = CathedralCore::new();
    let m = core.for_tier(ModelTier::Plus);
    let (r, t) = m.generate_with_thinking("qual o seu nome?").unwrap();
    assert_eq!(r, "Mock response: Meu nome é João.");
    assert!(t.is_some());
    let (r2, t2) = m.generate_with_thinking("L0 gosto de café").unwrap();
    assert_eq!(r2, "Mock response: Eu gosto de café.");
    assert!(t2.is_none());
    let (r3, _) = m.generate_with_thinking("olá").unwrap();
    assert_eq!(r3, "Mock response for prompt length 4. Tier: Plus");
    assert_eq!(ModelTier::Standard.name(), "Standard");
}

#[test]
fn merkle_and_nostr_mocks() {
    let p = Proof { leaf: [1u8; 32], siblings: vec![[2u8; 32]] };
    assert!(p.verify([0u8; 32]));
    assert!(NostrReplicator.default_relays().is_empty());
}

#[test]
fn permissions_mock_allows_everything() {
    let p = AgentPermissions { agent_did: Did("did:a".to_string()), operations: vec![], signature: vec![] };
    assert!(p.check("bash", "/etc").is_ok());
    assert_eq!(p.agent_did.to_string(), "did:a");
}

#[test]
fn vulnerability_conversion_keeps_fields() {
    let o = SecondSelfOrchestrator { wormgraph_indexer: WormGraphIndexer, fast_brain: FastBrain };
    let v = BitsecVulnerability {
        id: "1".to_string(),
        title: "t".to_string(),
        description: "d".to_string(),
        severity: "high".to_string(),
        location: "l".to_string(),
        cwe_id: Some("CWE-79".to_string()),
        remediation: None,
    };
    let c = o.convert_to_cathedral_vuln(&v);
    assert_eq!(c.severity, "high");
    assert_eq!(c.cwe_id, Some("CWE-79".to_string()));
    assert!(!c.verified);
    assert_eq!(c.created_at, 0);
}

#[test]
fn resilience_breaker_opens_and_half_opens() {
    let mut cb = CircuitBreaker::new(2, Duration::from_secs(10));
    assert!(cb.is_allowed_at(0));
    cb.record_failure_at(100);
    assert!(cb.is_allowed_at(100));
    cb.record_failure_at(101);
    assert!(!cb.is_allowed_at(111));
    assert!(cb.is_allowed_at(112));
    assert!(cb.is_allowed_at(112));
    cb.record_success();
    assert!(cb.is_allowed());
}

#[test]
fn deploy_response_from_outcome() {
    let ok = DeployResponse::from_outcome(Ok(("0xabc".to_string(), "0xtx".to_string(), "a1".to_string())));
    assert!(ok.success);
    assert_eq!(ok.contract_address.as_deref(), Some("0xabc"));
    let err = DeployResponse::from_outcome(Err("boom".to_string()));
    assert!(!err.success);
    assert_eq!(err.error.as_deref(), Some("boom"));
    assert!(err.transaction_hash.is_none());
}

fn finding(id: &str, severity: &str) -> BitsecVulnerability {
    BitsecVulnerability {
        id: id.to_string(),
        title: "t".to_string(),
        description: "d".to_string(),
        severity: severity.to_string(),
        location: "l".to_string(),
        cwe_id: None,
        remediation: None,
    }
}

#[test]
fn security_analysis_decisions() {
    assert!(SecondSelfOrchestrator::runs_pentest("rust"));
    assert!(SecondSelfOrchestrator::runs_pentest("javascript"));
    assert!(!SecondSelfOrchestrator::runs_pentest("python"));
    assert!(SecondSelfOrchestrator::wants_fix("high"));
    assert!(!SecondSelfOrchestrator::wants_fix("medium"));
    assert!(SecondSelfOrchestrator::wants_proof("critical"));
    assert!(!SecondSelfOrchestrator::wants_proof("high"));
    let vulns = vec![finding("a", "low"), finding("b", "critical"), finding("c", "high"), finding("d", "medium")];
    assert_eq!(SecondSelfOrchestrator::findings_to_fix(&vulns), vec![1, 2]);
}

#[test]
fn picoads_requests_are_built_from_the_client() {
    let c = PicoAdsClient::new("k1".to_string(), None);
    assert_eq!(c.recommendations_url(), "https://picoads.xyz/recommendations");
    assert_eq!(c.authorization(), "Bearer k1");
    let own = PicoAdsClient::new("k2".to_string(), Some("http://localhost:9".to_string()));
    assert_eq!(own.recommendations_url(), "http://localhost:9/recommendations");
    let req = own.recommendation_request("yield", Some("defi-yield"), Some(3));
    assert_eq!(req.query, "yield");
    assert_eq!(req.hub.as_deref(), Some("defi-yield"));
    assert_eq!(req.max_results, Some(3));
}
