use arkhe::firewall::{
    analyze_semantic_intent, calculate_safety_score, is_suspiciously_obfuscated, CircuitBreaker,
    CircuitState, FirewallErrorCode, FirewallReason, ProActBFT, RegionId, SemanticVerdict,
    TemporalSemanticFirewall, EMBEDDING_DIM,
};

#[test]
fn test_circuit_breaker_transitions() {
    let mut cb = CircuitBreaker::new(3, 1000);
    assert_eq!(cb.state(), CircuitState::Closed);

    cb.record_failure(100);
    cb.record_failure(200);
    assert_eq!(cb.state(), CircuitState::Closed);

    cb.record_failure(300);
    assert_eq!(cb.state(), CircuitState::Open);

    assert!(!cb.can_execute(400));
    assert!(cb.can_execute(1500));
}

#[test]
fn test_firewall_reason_str() {
    assert_eq!(
        FirewallReason::CircuitBreakerTripped.as_str(),
        "circuit_breaker:threshold_exceeded"
    );
    assert_eq!(
        FirewallReason::QuarantineSilenced.as_str(),
        "proact:quarantine_silenced"
    );
}

#[test]
fn test_safety_score_no_truncation() {
    let mut emb = [0i8; EMBEDDING_DIM];
    emb[0] = 100;
    emb[1] = -100;

    let score = calculate_safety_score(&emb);
    assert_eq!(score, 0);

    let emb2 = [10i8; EMBEDDING_DIM];
    let score2 = calculate_safety_score(&emb2);
    assert_eq!(score2, 10);
}

#[test]
fn test_obfuscation_threshold() {
    let clean = [5i8; EMBEDDING_DIM];
    assert!(!is_suspiciously_obfuscated(&clean));

    let mut adv = [0i8; EMBEDDING_DIM];
    adv[0] = 127;
    adv[1] = -128;
    assert!(is_suspiciously_obfuscated(&adv));
}

#[test]
fn test_proact_quarantine_silence() {
    let mut proact = ProActBFT::new();
    let agent = [0u8; 32];
    let region: RegionId = "br-sudest";

    proact.silent_quarantine(region, agent, 1000);
    assert!(proact.is_quarantined(region, agent));
}

#[test]
fn test_firewall_error_codes() {
    assert_eq!(FirewallErrorCode::CircuitBreakerOpen.as_u32(), 0x2140_7001);
    assert_eq!(FirewallErrorCode::HoneypotActivated.as_u32(), 0x2140_7031);
    assert_eq!(FirewallErrorCode::Unknown.as_u32(), 0x2140_70F0);
}

#[test]
fn test_sinkhole_absorb() {
    let mut proact = ProActBFT::new();
    let before = proact.sinkhole_count();
    proact.sinkhole_absorb().unwrap();
    assert_eq!(proact.sinkhole_count(), before + 1);
}

#[test]
fn breaker_opens_exactly_at_threshold() {
    let mut cb = CircuitBreaker::new(1, 50);
    cb.record_failure(10);
    assert_eq!(cb.state(), CircuitState::Open);
    assert!(!cb.can_execute(59));
    assert!(cb.can_execute(60));
}

#[test]
fn success_closes_breaker() {
    let mut cb = CircuitBreaker::new(2, 1000);
    cb.record_failure(1);
    cb.record_failure(2);
    assert_eq!(cb.state(), CircuitState::Open);
    cb.record_success();
    assert_eq!(cb.state(), CircuitState::Closed);
    assert!(cb.can_execute(3));
}

#[test]
fn safety_score_averages_toward_zero() {
    let mut emb = [0i8; EMBEDDING_DIM];
    emb[0] = -127;
    assert_eq!(calculate_safety_score(&emb), 0);
    let emb2 = [-3i8; EMBEDDING_DIM];
    assert_eq!(calculate_safety_score(&emb2), -3);
}

#[test]
fn neutral_tensor_is_a_violation() {
    let emb = [0i8; EMBEDDING_DIM];
    let (verdict, score, reason) = analyze_semantic_intent(&emb);
    assert_eq!(verdict, SemanticVerdict::Violation);
    assert_eq!(score, 0);
    assert_eq!(reason, FirewallReason::SafetyScoreBelowThreshold);
}

#[test]
fn clean_and_obfuscated_intents() {
    let clean = [40i8; EMBEDDING_DIM];
    assert_eq!(analyze_semantic_intent(&clean).0, SemanticVerdict::Clean);
    let mut adv = [40i8; EMBEDDING_DIM];
    adv[0] = 127;
    adv[1] = -100;
    let (verdict, _, reason) = analyze_semantic_intent(&adv);
    assert_eq!(verdict, SemanticVerdict::Obfuscated);
    assert_eq!(reason, FirewallReason::IntentObfuscationSuspected);
}

#[test]
fn quarantine_is_idempotent() {
    let mut proact = ProActBFT::new();
    let agent = [7u8; 32];
    proact.silent_quarantine("eu-west", agent, 1);
    proact.silent_quarantine("eu-west", agent, 2);
    assert!(proact.is_quarantined("eu-west", agent));
    assert!(!proact.is_quarantined("us-east", agent));
}

#[test]
fn honeypot_engagement_is_remembered() {
    let mut proact = ProActBFT::new();
    let agent = [9u8; 32];
    assert!(!proact.is_honeypot(agent));
    proact.engage_honeypot(agent, 5);
    assert!(proact.is_honeypot(agent));
}

#[test]
fn violation_quarantines_silently() {
    let mut fw = TemporalSemanticFirewall::new();
    let agent = [1u8; 32];
    let first = fw.process_intent(agent, "br-sudest", b"hello", 1000);
    assert_eq!(
        first.unwrap_err(),
        (
            FirewallErrorCode::QuarantineTriggered,
            FirewallReason::SafetyScoreBelowThreshold
        )
    );
    let second = fw.process_intent(agent, "br-sudest", b"hello", 1001);
    assert_eq!(second.unwrap(), [0i8; EMBEDDING_DIM]);
}

#[test]
fn repeated_violations_open_the_firewall_breaker() {
    let mut fw = TemporalSemanticFirewall::new();
    for i in 0..5u8 {
        let agent = [i; 32];
        assert!(fw.process_intent(agent, "r", b"x", 100).is_err());
    }
    let blocked = fw.process_intent([99u8; 32], "r", b"x", 200);
    assert_eq!(
        blocked.unwrap_err(),
        (
            FirewallErrorCode::CircuitBreakerOpen,
            FirewallReason::CircuitBreakerTripped
        )
    );
    fw.tick_reset_circuit_breaker(100 + 30_000);
    let after = fw.process_intent([98u8; 32], "r", b"x", 100 + 30_000);
    assert_eq!(after.unwrap_err().0, FirewallErrorCode::QuarantineTriggered);
}

#[test]
fn proact_run_tracks_calls() {
    let mut proact = ProActBFT::new();
    let a = [1u8; 32];
    let b = [2u8; 32];
    proact.silent_quarantine("br-sudest", a, 1);
    proact.silent_quarantine("br-sudest", a, 2);
    proact.engage_honeypot(b, 3);
    proact.sinkhole_absorb().unwrap();
    proact.sinkhole_absorb().unwrap();
    assert!(proact.is_quarantined("br-sudest", a));
    assert!(!proact.is_quarantined("us-east", a));
    assert!(!proact.is_quarantined("br-sudest", b));
    assert!(proact.is_honeypot(b));
    assert!(!proact.is_honeypot(a));
    assert_eq!(proact.sinkhole_count(), 2);
}
