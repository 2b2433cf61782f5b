use arkhe::arkhe_core::delta::{
    apply, apply_artifact, apply_belief, apply_claim, apply_decision, apply_evidence,
    TransitionError,
};
use arkhe::arkhe_core::hash::{digest_to_text, FnHasher, Hasher, IdentityHasher};
use arkhe::arkhe_core::invariants::{
    check_invariants, check_invariants_in_order, ic8_acyclic, ic8_in_order, InvariantViolation,
};
use arkhe::arkhe_core::types::{Decision, Event, Evidence, State};

fn identity_text(s: &str) -> String {
    format!("{:x?}", IdentityHasher.hash(s.as_bytes()))
}

fn built_state() -> State {
    let s = State::new();
    let s = apply(s, &Event::ArtifactAdded(1, "payload".to_string(), "meta".to_string())).unwrap();
    let s = apply(
        s,
        &Event::EvidenceAdded(10, 1, "content".to_string(), "sig".to_string(), 5, None),
    )
    .unwrap();
    let s = apply(s, &Event::ClaimAdded(20, "prop".to_string(), vec![10])).unwrap();
    let s = apply(s, &Event::BeliefAdded(30, 20, 90, "because".to_string())).unwrap();
    apply(s, &Event::DecisionAdded(40, "goal".to_string(), vec![30], 7)).unwrap()
}

#[test]
fn digest_text_matches_debug_hex_notation() {
    let mut d = [0u8; 32];
    d[0] = 0xff;
    d[1] = 0x0a;
    d[2] = 0x10;
    assert_eq!(digest_to_text(&d), format!("{:x?}", d));
    assert!(digest_to_text(&d).starts_with("[ff, a, 10, 0, "));
}

#[test]
fn identity_hasher_pads_and_truncates() {
    let short = IdentityHasher.hash(b"abc");
    assert_eq!(&short[..3], b"abc");
    assert!(short[3..].iter().all(|&b| b == 0));
    let long: Vec<u8> = (0..40u8).collect();
    let h = IdentityHasher.hash(&long);
    assert_eq!(&h[..], &long[..32]);
}

#[test]
fn transitions_build_a_consistent_state() {
    let s = built_state();
    assert_eq!(s.artifacts[&1].hash, identity_text("payload"));
    assert_eq!(s.evidences[&10].hash, identity_text("content"));
    assert_eq!(s.claims[&20].evidence_ids, vec![10]);
    assert_eq!(s.decisions[&40].belief_ids, vec![30]);
    assert_eq!(check_invariants(&s), Ok(()));
    assert_eq!(ic8_acyclic(&s), Ok(()));
}

#[test]
fn duplicate_identifiers_are_refused() {
    let s = built_state();
    let r = apply(s, &Event::ArtifactAdded(1, "x".to_string(), "y".to_string()));
    assert_eq!(r.err(), Some(TransitionError::IdAlreadyExists));
    let s = built_state();
    let r = apply_claim(s, 20, "p".to_string(), vec![10]);
    assert_eq!(r.err(), Some(TransitionError::IdAlreadyExists));
}

#[test]
fn dangling_references_are_refused() {
    let r = apply_evidence(State::new(), 1, 99, "c".to_string(), "s".to_string(), 0, None, &IdentityHasher);
    assert_eq!(r.err(), Some(TransitionError::ReferencedIdNotFound));
    let r = apply_claim(built_state(), 21, "p".to_string(), vec![10, 11]);
    assert_eq!(r.err(), Some(TransitionError::ReferencedIdNotFound));
    let r = apply_belief(built_state(), 31, 999, 1, "j".to_string());
    assert_eq!(r.err(), Some(TransitionError::ReferencedIdNotFound));
    let r = apply_decision(built_state(), 41, "g".to_string(), vec![30, 31], 0);
    assert_eq!(r.err(), Some(TransitionError::ReferencedIdNotFound));
}

#[test]
fn empty_claims_are_refused() {
    let r = apply_claim(built_state(), 21, "p".to_string(), vec![]);
    assert_eq!(r.err(), Some(TransitionError::EmptyEvidences));
}

#[test]
fn parent_hash_must_be_known() {
    let s = built_state();
    let bad = apply_evidence(
        s,
        11,
        1,
        "c2".to_string(),
        "s".to_string(),
        0,
        Some("nope".to_string()),
        &IdentityHasher,
    );
    assert_eq!(bad.err(), Some(TransitionError::InvalidParentHash));
    let s = built_state();
    let parent = identity_text("content");
    let good = apply_evidence(s, 11, 1, "c2".to_string(), "s".to_string(), 0, Some(parent), &IdentityHasher);
    assert!(good.is_ok());
}

#[test]
fn supplied_hasher_is_used() {
    let hasher = FnHasher::new(|_: &[u8]| [7u8; 32]);
    let s = apply_artifact(State::new(), 1, "p".to_string(), "m".to_string(), &hasher).unwrap();
    assert_eq!(s.artifacts[&1].hash, format!("{:x?}", [7u8; 32]));
}

#[test]
fn violations_are_reported_by_group() {
    let mut s = State::new();
    s.evidences.insert(
        1,
        Evidence {
            artifact_id: 5,
            content: "c".to_string(),
            signature: "s".to_string(),
            timestamp: 0,
            parent_hash: None,
            hash: "h".to_string(),
        },
    );
    s.claims.insert(2, arkhe::arkhe_core::types::Claim { proposition: "p".to_string(), evidence_ids: vec![] });
    let r = check_invariants(&s);
    assert_eq!(
        r,
        Err(vec![
            InvariantViolation::Ic6MissingArtifact { evidence_id: 1, artifact_id: 5 },
            InvariantViolation::Ic10EmptyClaim { claim_id: 2 },
        ])
    );
}

#[test]
fn untraceable_decision_is_reported() {
    let mut s = built_state();
    s.evidences.remove(&10);
    let r = check_invariants(&s);
    assert_eq!(
        r,
        Err(vec![InvariantViolation::Ic16UntraceableDecision { decision_id: 40, missing_evidence: 10 }])
    );
    let _ = Decision { goal: String::new(), belief_ids: vec![], timestamp: 0 };
}

#[test]
fn cycles_in_parent_chains_are_detected() {
    let mut s = State::new();
    let ev = |parent: &str, hash: &str| Evidence {
        artifact_id: 0,
        content: String::new(),
        signature: String::new(),
        timestamp: 0,
        parent_hash: Some(parent.to_string()),
        hash: hash.to_string(),
    };
    s.evidences.insert(1, ev("b", "a"));
    s.evidences.insert(2, ev("a", "b"));
    let keys = vec![1u64, 2];
    let r = ic8_in_order(&s, &keys);
    assert_eq!(
        r,
        Err(InvariantViolation::Ic8CycleDetected { evidence_id: 1, cycle_hash: "b".to_string() })
    );
    let keys2 = vec![2u64, 1];
    let r2 = ic8_in_order(&s, &keys2);
    assert_eq!(
        r2,
        Err(InvariantViolation::Ic8CycleDetected { evidence_id: 2, cycle_hash: "a".to_string() })
    );
    assert!(ic8_acyclic(&s).is_err());
    let all = check_invariants_in_order(&s, &keys, &vec![], &vec![]);
    assert_eq!(
        all,
        Err(vec![
            InvariantViolation::Ic6MissingArtifact { evidence_id: 1, artifact_id: 0 },
            InvariantViolation::Ic6MissingArtifact { evidence_id: 2, artifact_id: 0 },
            InvariantViolation::Ic8CycleDetected { evidence_id: 1, cycle_hash: "b".to_string() },
        ])
    );
}

#[test]
fn chain_ending_at_root_is_acyclic() {
    let s = built_state();
    let parent = identity_text("content");
    let s = apply(s, &Event::EvidenceAdded(11, 1, "second".to_string(), "s".to_string(), 1, Some(parent))).unwrap();
    assert_eq!(ic8_acyclic(&s), Ok(()));
    assert_eq!(check_invariants(&s), Ok(()));
}

#[test]
fn repeated_content_hash_can_close_a_chain() {
    let s = State::new();
    let s = apply(s, &Event::ArtifactAdded(1, "p".to_string(), "m".to_string())).unwrap();
    let s = apply(s, &Event::EvidenceAdded(1, 1, "a".to_string(), "s".to_string(), 0, None)).unwrap();
    let ha = identity_text("a");
    let s = apply(s, &Event::EvidenceAdded(2, 1, "b".to_string(), "s".to_string(), 0, Some(ha))).unwrap();
    let hb = identity_text("b");
    let s = apply(s, &Event::EvidenceAdded(3, 1, "a".to_string(), "s".to_string(), 0, Some(hb.clone()))).unwrap();
    assert_eq!(ic8_in_order(&s, &vec![1, 2, 3]), Ok(()));
    assert_eq!(
        ic8_in_order(&s, &vec![3, 1, 2]),
        Err(InvariantViolation::Ic8CycleDetected { evidence_id: 3, cycle_hash: hb })
    );
}

#[test]
fn supplied_hasher_sees_the_evidence_content() {
    let hasher = FnHasher::new(|c: &[u8]| {
        let mut d = [0u8; 32];
        d[0] = c.len() as u8;
        d
    });
    let s = apply_artifact(State::new(), 1, "p".to_string(), "meta".to_string(), &hasher).unwrap();
    let mut expected = [0u8; 32];
    expected[0] = 1;
    assert_eq!(s.artifacts[&1].hash, format!("{:x?}", expected));
    let s = apply_evidence(s, 2, 1, "abc".to_string(), "sig".to_string(), 0, None, &hasher).unwrap();
    expected[0] = 3;
    assert_eq!(s.evidences[&2].hash, format!("{:x?}", expected));
}

#[test]
fn violations_have_their_texts() {
    assert_eq!(
        InvariantViolation::Ic6MissingArtifact { evidence_id: 12, artifact_id: 305 }.text(),
        "IC6: Evidence 12 references missing artifact 305"
    );
    assert_eq!(
        InvariantViolation::Ic8CycleDetected { evidence_id: 0, cycle_hash: "ab".to_string() }.text(),
        "IC8: Cycle detected at evidence 0, hash ab"
    );
    assert_eq!(InvariantViolation::Ic10EmptyClaim { claim_id: 7 }.text(), "IC10: Claim 7 has no evidences");
    assert_eq!(
        InvariantViolation::Ic16UntraceableDecision { decision_id: 4, missing_evidence: 90 }.text(),
        "IC16: Decision 4 references missing evidence 90"
    );
}
