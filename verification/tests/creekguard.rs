use arkhe::creekguard::{
    CanaryRegistry, Correlation, CreekGuard, CreekGuardErrorCode, CreekGuardVerdict, CreekMessage,
    EntropyVerdict, FingerprintRegistry, SemanticRateLimiter, TimingCorrelationEngine, TopicId,
};

// The entropy classification and the size class are computed in single
// precision, as the pipeline expects them from its caller.
fn shannon_entropy(payload: &[u8]) -> f32 {
    if payload.is_empty() {
        return 0.0;
    }
    let mut freq = [0u32; 256];
    for &byte in payload.iter() {
        freq[byte as usize] += 1;
    }
    let len = payload.len() as f32;
    let mut entropy = 0.0f32;
    for count in freq.iter() {
        if *count > 0 {
            let p = *count as f32 / len;
            entropy -= p * libm::log2f(p);
        }
    }
    entropy
}

fn entropy_verdict(payload: &[u8]) -> EntropyVerdict {
    let entropy = shannon_entropy(payload);
    if entropy > 7.99 {
        EntropyVerdict::Encrypted
    } else if entropy > 7.8 {
        EntropyVerdict::Suspicious
    } else if entropy < 2.0 {
        EntropyVerdict::Structured
    } else {
        EntropyVerdict::Clean
    }
}

fn size_class(payload: &[u8]) -> u8 {
    libm::log2f(payload.len() as f32) as u8
}

fn analyze(guard: &mut CreekGuard, msg: &CreekMessage) -> (CreekGuardVerdict, Vec<CreekGuardErrorCode>) {
    let v = entropy_verdict(&msg.payload);
    let c = size_class(&msg.payload);
    guard.analyze_message(msg, v, c)
}

#[test]
fn test_canary_exfiltration() {
    let mut guard = CreekGuard::new();
    let topic: TopicId = "test-topic";

    let canary_payload = guard.canary_registry.inject_canary(topic, 1000);

    let detected = guard.canary_registry.detect_exfiltration(&canary_payload);
    assert!(detected.is_some());
}

#[test]
fn test_near_duplicate_detection() {
    let mut registry = FingerprintRegistry::new(2);
    let topic: TopicId = "test-topic";

    let payload1 = b"Agent A reports status: all systems nominal.";
    let fp1 = FingerprintRegistry::compute_fingerprint(payload1, size_class(payload1));
    let (dup1, _) = registry.check_near_duplicate(topic, &fp1);
    assert!(!dup1);

    let payload2 = b"Agent A reports status: all systems nominal.";
    let fp2 = FingerprintRegistry::compute_fingerprint(payload2, size_class(payload2));
    let (dup2, count) = registry.check_near_duplicate(topic, &fp2);
    assert!(!dup2);
    assert_eq!(count, 1);
}

#[test]
fn test_semantic_rate_limiter() {
    let mut limiter = SemanticRateLimiter::new(3, 60_000);
    let agent = [0u8; 32];
    let topic: TopicId = "test-topic";

    assert!(limiter.record_publication(agent, topic, false, 1000));
    assert!(limiter.record_publication(agent, topic, false, 2000));

    assert!(limiter.record_publication(agent, topic, true, 3000));
    assert!(limiter.record_publication(agent, topic, true, 4000));
    assert!(!limiter.record_publication(agent, topic, true, 5000));
    assert!(!limiter.record_publication(agent, topic, true, 6000));
}

#[test]
fn test_timing_correlation() {
    let mut engine = TimingCorrelationEngine::new(5000, 3);
    let agent_a = [0xAAu8; 32];
    let agent_b = [0xBBu8; 32];

    engine.record_timestamp(agent_a, 1000);
    engine.record_timestamp(agent_a, 2000);
    engine.record_timestamp(agent_a, 3000);

    engine.record_timestamp(agent_b, 1050);
    engine.record_timestamp(agent_b, 2050);
    engine.record_timestamp(agent_b, 3050);

    let corr = engine.detect_correlation(agent_a, agent_b);
    let score = corr.matches as f32 / corr.overlap as f32;
    assert!(score > 0.8);
    assert!(corr.above_four_fifths());
}

#[test]
fn test_creekguard_pipeline() {
    let mut guard = CreekGuard::new();
    let agent = [0xCCu8; 32];
    let topic: TopicId = "agents.status";

    let msg = CreekMessage {
        agent_id: agent,
        topic,
        payload: b"Status: normal, load: 45%, memory: 60%".to_vec(),
        timestamp_ms: 1000,
        sequence_num: 1,
    };
    let (verdict, errors) = analyze(&mut guard, &msg);
    assert_eq!(verdict, CreekGuardVerdict::Pass);
    assert!(errors.is_empty());

    let encrypted_payload: Vec<u8> = (0..512).map(|i| (i * 17 + 31) as u8).collect();
    let msg2 = CreekMessage {
        agent_id: agent,
        topic,
        payload: encrypted_payload,
        timestamp_ms: 2000,
        sequence_num: 2,
    };
    let (_verdict2, errors2) = analyze(&mut guard, &msg2);
    assert!(errors2.contains(&CreekGuardErrorCode::EntropySuspiciouslyHigh));
}

#[test]
fn test_error_code_namespace() {
    assert_eq!(CreekGuardErrorCode::EntropySuspiciouslyHigh.as_u32(), 0x2140_8001);
    assert_eq!(CreekGuardErrorCode::TimingCorrelationDetected.as_u32(), 0x2140_8010);
    assert_eq!(CreekGuardErrorCode::WatermarkExfiltrated.as_u32(), 0x2140_8021);
    assert_eq!(CreekGuardErrorCode::SemanticNoveltyExceeded.as_u32(), 0x2140_8030);
}

#[test]
fn canary_payload_layout() {
    let mut reg = CanaryRegistry::new();
    let payload = reg.inject_canary("t", 0x0102);
    assert_eq!(payload.len(), 256);
    assert_eq!(&payload[..7], b"CANARY_");
    assert_eq!(payload[7], 0x02);
    assert_eq!(payload[8], 0x01);
    assert!(payload[9..].iter().all(|&b| b == 0));
    assert_eq!(reg.active_count(), 1);
    assert_eq!(reg.detected_count(), 0);
}

#[test]
fn exfiltration_is_counted_and_foreign_payload_is_not() {
    let mut reg = CanaryRegistry::new();
    let payload = reg.inject_canary("t", 42);
    assert!(reg.detect_exfiltration(b"an ordinary message").is_none());
    assert_eq!(reg.detected_count(), 0);
    let hit = reg.detect_exfiltration(&payload).map(|c| c.injected_at_ms);
    assert_eq!(hit, Some(42));
    assert_eq!(reg.detected_count(), 1);
}

#[test]
fn injecting_twice_at_one_time_replaces_the_canary() {
    let mut reg = CanaryRegistry::new();
    reg.inject_canary("a", 7);
    reg.inject_canary("b", 7);
    assert_eq!(reg.active_count(), 1);
    reg.inject_canary("c", 8);
    assert_eq!(reg.active_count(), 2);
}

#[test]
fn fingerprint_of_known_payload() {
    let fp = FingerprintRegistry::compute_fingerprint(&[1, 2, 3, 4, 5, 6, 7, 8, 9], 3);
    assert_eq!(fp.simhash, 0x0807060504030201u64 ^ 9);
    assert_eq!(fp.size_class, 3);
    let mut h: u64 = 0xcbf29ce484222325;
    for b in [1u8, 2, 3, 4, 5, 6, 7, 8, 9] {
        h ^= (b ^ 2) as u64;
        h = h.wrapping_mul(0x100000001b3);
    }
    assert_eq!(fp.minhash[2], h);
    let empty = FingerprintRegistry::compute_fingerprint(&[], 0);
    assert_eq!(empty.simhash, 0);
    assert_eq!(empty.minhash[0], 0xcbf29ce484222325);
}

#[test]
fn duplicates_reach_threshold_and_are_not_kept() {
    let mut registry = FingerprintRegistry::new(2);
    let fp = FingerprintRegistry::compute_fingerprint(b"same payload!", 3);
    assert_eq!(registry.check_near_duplicate("t", &fp), (false, 0));
    assert_eq!(registry.check_near_duplicate("t", &fp), (false, 1));
    assert_eq!(registry.check_near_duplicate("t", &fp), (true, 2));
    assert_eq!(registry.check_near_duplicate("t", &fp), (true, 2));
    assert_eq!(registry.check_near_duplicate("other", &fp), (false, 0));
}

#[test]
fn different_size_classes_are_never_similar() {
    let mut registry = FingerprintRegistry::new(1);
    let a = FingerprintRegistry::compute_fingerprint(b"payload", 2);
    let b = FingerprintRegistry::compute_fingerprint(b"payload", 3);
    assert_eq!(registry.check_near_duplicate("t", &a), (false, 0));
    assert_eq!(registry.check_near_duplicate("t", &b), (false, 0));
}

#[test]
fn violation_count_tracks_duplicates_per_topic() {
    let mut limiter = SemanticRateLimiter::new(2, 60_000);
    let agent = [3u8; 32];
    assert_eq!(limiter.violation_count(agent, "x"), 0);
    assert!(limiter.record_publication(agent, "x", true, 1));
    assert!(!limiter.record_publication(agent, "x", true, 2));
    assert!(limiter.record_publication(agent, "y", false, 3));
    assert_eq!(limiter.violation_count(agent, "x"), 2);
    assert_eq!(limiter.violation_count(agent, "y"), 0);
    assert_eq!(limiter.violation_count([4u8; 32], "x"), 0);
}

#[test]
fn timestamps_outside_window_are_dropped() {
    let mut engine = TimingCorrelationEngine::new(1000, 3);
    let a = [1u8; 32];
    let b = [2u8; 32];
    engine.record_timestamp(a, 0);
    engine.record_timestamp(a, 5000);
    engine.record_timestamp(b, 5000);
    let c = engine.detect_correlation(a, b);
    assert_eq!((c.matches, c.overlap), (1, 1));
    let none = engine.detect_correlation(a, [9u8; 32]);
    assert_eq!((none.matches, none.overlap), (0, 0));
    assert!(!none.above_half());
}

#[test]
fn bursts_are_listed_in_identifier_order() {
    let mut engine = TimingCorrelationEngine::new(5000, 3);
    let low = [1u8; 32];
    let high = [200u8; 32];
    let mid = [100u8; 32];
    engine.record_timestamp(high, 1000);
    engine.record_timestamp(low, 1010);
    engine.record_timestamp(mid, 4000);
    let bursts = engine.detect_burst_pattern(4000);
    assert_eq!(bursts.len(), 1);
    assert_eq!(bursts[0].0, low);
    assert_eq!(bursts[0].1, high);
    assert!(bursts[0].2.above_four_fifths());
}

#[test]
fn correlation_thresholds_follow_single_precision() {
    let c = |m: u32, n: usize| Correlation { matches: m, overlap: n };
    assert!(!c(4, 5).above_four_fifths());
    assert!(c(5, 6).above_four_fifths());
    assert!(!c(1, 2).above_half());
    assert!(c(2, 3).above_half());
    assert!(!c(0, 0).above_half());
    for (m, n) in [(4u32, 5usize), (8, 10), (13421773, 16777216), (1, 2), (16777217, 33554432)] {
        let q = m as f32 / n as f32;
        assert_eq!(c(m, n).above_four_fifths(), q > 0.8);
        assert_eq!(c(m, n).above_half(), q > 0.5);
    }
}

#[test]
fn coordinated_agents_go_to_the_honeypot() {
    let mut guard = CreekGuard::new();
    let a = [0x10u8; 32];
    let b = [0x20u8; 32];
    let mk = |agent: [u8; 32], t: u64, text: &str| CreekMessage {
        agent_id: agent,
        topic: "coord",
        payload: text.as_bytes().to_vec(),
        timestamp_ms: t,
        sequence_num: 0,
    };
    analyze(&mut guard, &mk(a, 1000, "first note from a"));
    let (verdict, errors) = analyze(&mut guard, &mk(b, 1020, "a reply from b"));
    assert_eq!(errors, vec![CreekGuardErrorCode::TimingCorrelationDetected]);
    assert_eq!(verdict, CreekGuardVerdict::Honeypot);
    let m = guard.metrics();
    assert_eq!(m.messages_processed, 2);
    assert_eq!(m.covert_channels_detected, 1);
}

#[test]
fn exfiltrated_canary_blocks_the_message() {
    let mut guard = CreekGuard::new();
    let payload = guard.canary_registry.inject_canary("t", 77);
    let msg = CreekMessage {
        agent_id: [5u8; 32],
        topic: "t",
        payload,
        timestamp_ms: 100,
        sequence_num: 0,
    };
    let (verdict, errors) = analyze(&mut guard, &msg);
    assert_eq!(verdict, CreekGuardVerdict::Block);
    assert_eq!(errors, vec![CreekGuardErrorCode::WatermarkExfiltrated]);
    let m = guard.metrics();
    assert_eq!(m.canaries_exfiltrated, 1);
    assert_eq!(m.canaries_active, 1);
}

#[test]
fn every_hundredth_message_injects_a_canary() {
    let mut guard = CreekGuard::new();
    for i in 0..100u64 {
        let msg = CreekMessage {
            agent_id: [(i % 200) as u8; 32],
            topic: "bulk",
            payload: format!("message number {} with enough text", i).into_bytes(),
            timestamp_ms: i * 10_000,
            sequence_num: i,
        };
        analyze(&mut guard, &msg);
    }
    assert_eq!(guard.metrics().canaries_active, 1);
}

#[test]
fn republication_is_flagged_then_throttled() {
    let mut guard = CreekGuard::new();
    let agent = [0x42u8; 32];
    let mut last = (CreekGuardVerdict::Pass, vec![]);
    for i in 0..6u64 {
        let msg = CreekMessage {
            agent_id: agent,
            topic: "repeat",
            payload: b"exactly the same status line".to_vec(),
            timestamp_ms: i * 10_000,
            sequence_num: i,
        };
        last = analyze(&mut guard, &msg);
        if i == 3 {
            assert_eq!(last.1, vec![CreekGuardErrorCode::NearDuplicateDetected]);
            assert_eq!(last.0, CreekGuardVerdict::Pass);
        }
    }
    assert_eq!(
        last.1,
        vec![
            CreekGuardErrorCode::NearDuplicateDetected,
            CreekGuardErrorCode::SemanticNoveltyExceeded
        ]
    );
    assert_eq!(last.0, CreekGuardVerdict::Quarantine);
}

#[test]
fn partial_coincidence_is_a_burst() {
    let mut guard = CreekGuard::new();
    let a = [0x10u8; 32];
    let b = [0x20u8; 32];
    let sends = [(a, 1000u64, "alpha one"), (b, 1010, "beta one"), (a, 2000, "alpha two"), (b, 2010, "beta two"), (a, 3000, "alpha three")];
    for (agent, t, text) in sends.iter() {
        let msg = CreekMessage { agent_id: *agent, topic: "t", payload: text.as_bytes().to_vec(), timestamp_ms: *t, sequence_num: 0 };
        analyze(&mut guard, &msg);
    }
    let msg = CreekMessage { agent_id: b, topic: "t", payload: b"beta three".to_vec(), timestamp_ms: 4000, sequence_num: 0 };
    let (verdict, errors) = analyze(&mut guard, &msg);
    assert_eq!(errors, vec![CreekGuardErrorCode::BurstPatternDetected]);
    assert_eq!(verdict, CreekGuardVerdict::Pass);
}

#[test]
fn suspicious_entropy_is_reported_but_observed() {
    let mut guard = CreekGuard::new();
    let msg = CreekMessage { agent_id: [1u8; 32], topic: "t", payload: b"payload".to_vec(), timestamp_ms: 5, sequence_num: 0 };
    let (verdict, errors) = guard.analyze_message(&msg, EntropyVerdict::Suspicious, 2);
    assert_eq!(errors, vec![CreekGuardErrorCode::EntropySuspiciouslyHigh]);
    assert_eq!(verdict, CreekGuardVerdict::Pass);
}

#[test]
fn correlation_is_capped_at_the_overlap() {
    let mut engine = TimingCorrelationEngine::new(5000, 3);
    let a = [0xAAu8; 32];
    let b = [0xBBu8; 32];
    engine.record_timestamp(a, 1000);
    engine.record_timestamp(a, 1010);
    engine.record_timestamp(a, 1020);
    engine.record_timestamp(b, 1000);
    let c = engine.detect_correlation(a, b);
    assert_eq!((c.matches, c.overlap), (1, 1));
    let back = engine.detect_correlation(b, a);
    assert_eq!((back.matches, back.overlap), (1, 1));
}

#[test]
fn metrics_count_a_run_of_messages() {
    let mut guard = CreekGuard::new();
    let agent = [3u8; 32];
    let mut blocks = 0u64;
    let mut covert = 0u64;
    for i in 0..150u64 {
        let msg = CreekMessage {
            agent_id: agent,
            topic: "run",
            payload: format!("message number {} with its own words", i * 7919).into_bytes(),
            timestamp_ms: 1_000_000 * (i + 1),
            sequence_num: i,
        };
        assert!(guard.can_analyze(&msg));
        let (v, _) = guard.analyze_message(&msg, EntropyVerdict::Clean, 5);
        if v == CreekGuardVerdict::Block {
            blocks += 1;
        }
        if v == CreekGuardVerdict::Block || v == CreekGuardVerdict::Honeypot {
            covert += 1;
        }
    }
    let m = guard.metrics();
    assert_eq!(m.messages_processed, 150);
    assert_eq!(m.canaries_exfiltrated, blocks);
    assert_eq!(m.covert_channels_detected, covert);
    assert!(m.canaries_active <= 1);
}

#[test]
fn registries_report_their_counts() {
    let mut engine = TimingCorrelationEngine::new(5000, 3);
    let a = [5u8; 32];
    engine.record_timestamp(a, 100);
    engine.record_timestamp(a, 200);
    assert_eq!(engine.timestamp_count(a), 2);
    assert_eq!(engine.timestamp_count([6u8; 32]), 0);
    let mut reg = FingerprintRegistry::new(3);
    let fp = FingerprintRegistry::compute_fingerprint(b"hello there", 3);
    reg.check_near_duplicate("t", &fp);
    assert_eq!(reg.kept_count("t"), 1);
    assert_eq!(reg.kept_count("u"), 0);
}

#[test]
fn timestamps_of_the_second_agent_may_serve_twice() {
    let mut engine = TimingCorrelationEngine::new(5000, 3);
    let a = [0xA1u8; 32];
    let b = [0xB1u8; 32];
    engine.record_timestamp(a, 1000);
    engine.record_timestamp(a, 1050);
    engine.record_timestamp(b, 1000);
    engine.record_timestamp(b, 2000);
    let c = engine.detect_correlation(a, b);
    assert_eq!((c.matches, c.overlap), (2, 2));
}
