//! Temporal semantic firewall: a circuit breaker (L0), silent quarantine,
//! honeypot and sinkhole (L1), and semantic analysis of intent tensors (L2).
use vstd::prelude::*;
use crate::assoc::{
    assoc_map, distinct_keys, ids32_equal, lemma_assoc_absent, lemma_assoc_contains,
    lemma_assoc_index, lemma_assoc_push, lemma_assoc_update, strs_equal,
};

verus! {

broadcast use vstd::array::group_array_axioms;

pub const EMBEDDING_DIM: usize = 768;
pub const MAX_AGENTS_PER_REGION: usize = 256;
/// Consecutive failures that open the circuit.
pub const CIRCUIT_BREAKER_THRESHOLD: u32 = 5;
/// Time after the last failure before an open circuit lets a request through.
pub const CIRCUIT_BREAKER_WINDOW_MS: u64 = 30_000;
/// Lowest safety score that passes the firewall.
pub const SAFETY_SCORE_THRESHOLD: i32 = 30;
/// Heuristic bound on the spread of an embedding (max - min) above which
/// the intent counts as obfuscated.
pub const OBSCURATION_THRESHOLD: i32 = 100;

/// Agent identifier: 32 bytes.
pub type AgentId = [u8; 32];

/// Region identifier.
pub type RegionId = &'static str;

/// Fixed-size intent embedding.
pub type IntentTensor = [i8; EMBEDDING_DIM];

/// Error codes of the firewall, in the namespace 0x2140_7001 – 0x2140_70FF.
#[derive(Debug, Clone, Copy, PartialEq, Eq, Structural)]
pub enum FirewallErrorCode {
    CircuitBreakerOpen,
    CircuitBreakerHalfOpen,
    SemanticViolation,
    SafetyScoreTooLow,
    ObscuredIntentDetected,
    TeeAttestationFailed,
    TeeSecureInferenceError,
    QuarantineTriggered,
    HoneypotActivated,
    SinkholeAbsorbed,
    Unknown,
}

impl FirewallErrorCode {
    /// The numeric code of each variant.
    pub open spec fn code(self) -> u32 {
        match self {
            FirewallErrorCode::CircuitBreakerOpen => 0x2140_7001,
            FirewallErrorCode::CircuitBreakerHalfOpen => 0x2140_7002,
            FirewallErrorCode::SemanticViolation => 0x2140_7010,
            FirewallErrorCode::SafetyScoreTooLow => 0x2140_7011,
            FirewallErrorCode::ObscuredIntentDetected => 0x2140_7012,
            FirewallErrorCode::TeeAttestationFailed => 0x2140_7020,
            FirewallErrorCode::TeeSecureInferenceError => 0x2140_7021,
            FirewallErrorCode::QuarantineTriggered => 0x2140_7030,
            FirewallErrorCode::HoneypotActivated => 0x2140_7031,
            FirewallErrorCode::SinkholeAbsorbed => 0x2140_7032,
            FirewallErrorCode::Unknown => 0x2140_70F0,
        }
    }

    pub fn as_u32(self) -> (r: u32)
        ensures
            r == self.code(),
    {
        match self {
            FirewallErrorCode::CircuitBreakerOpen => 0x2140_7001,
            FirewallErrorCode::CircuitBreakerHalfOpen => 0x2140_7002,
            FirewallErrorCode::SemanticViolation => 0x2140_7010,
            FirewallErrorCode::SafetyScoreTooLow => 0x2140_7011,
            FirewallErrorCode::ObscuredIntentDetected => 0x2140_7012,
            FirewallErrorCode::TeeAttestationFailed => 0x2140_7020,
            FirewallErrorCode::TeeSecureInferenceError => 0x2140_7021,
            FirewallErrorCode::QuarantineTriggered => 0x2140_7030,
            FirewallErrorCode::HoneypotActivated => 0x2140_7031,
            FirewallErrorCode::SinkholeAbsorbed => 0x2140_7032,
            FirewallErrorCode::Unknown => 0x2140_70F0,
        }
    }
}

/// Why the firewall blocked (or silently absorbed) an intent.
#[derive(Debug, Clone, Copy, PartialEq, Eq, Structural)]
pub enum FirewallReason {
    CircuitBreakerTripped,
    SemanticAnomalyDetected,
    SafetyScoreBelowThreshold,
    IntentObfuscationSuspected,
    TeeAttestationInvalid,
    QuarantineSilenced,
    HoneypotEngaged,
    SinkholeAbsorbed,
    Unknown,
}

impl FirewallReason {
    /// The text of each reason.
    pub open spec fn text(self) -> Seq<char> {
        match self {
            FirewallReason::CircuitBreakerTripped => "circuit_breaker:threshold_exceeded"@,
            FirewallReason::SemanticAnomalyDetected => "semantic:anomaly_detected"@,
            FirewallReason::SafetyScoreBelowThreshold => "semantic:safety_score_low"@,
            FirewallReason::IntentObfuscationSuspected => "semantic:obfuscation_suspected"@,
            FirewallReason::TeeAttestationInvalid => "tee:attestation_failed"@,
            FirewallReason::QuarantineSilenced => "proact:quarantine_silenced"@,
            FirewallReason::HoneypotEngaged => "proact:honeypot_engaged"@,
            FirewallReason::SinkholeAbsorbed => "proact:sinkhole_absorbed"@,
            FirewallReason::Unknown => "firewall:unknown"@,
        }
    }

    pub fn as_str(&self) -> (r: &'static str)
        ensures
            r@ == self.text(),
    {
        match self {
            FirewallReason::CircuitBreakerTripped => "circuit_breaker:threshold_exceeded",
            FirewallReason::SemanticAnomalyDetected => "semantic:anomaly_detected",
            FirewallReason::SafetyScoreBelowThreshold => "semantic:safety_score_low",
            FirewallReason::IntentObfuscationSuspected => "semantic:obfuscation_suspected",
            FirewallReason::TeeAttestationInvalid => "tee:attestation_failed",
            FirewallReason::QuarantineSilenced => "proact:quarantine_silenced",
            FirewallReason::HoneypotEngaged => "proact:honeypot_engaged",
            FirewallReason::SinkholeAbsorbed => "proact:sinkhole_absorbed",
            FirewallReason::Unknown => "firewall:unknown",
        }
    }
}

// ---------------------------------------------------------------------------
// Circuit breaker (L0)
// ---------------------------------------------------------------------------

#[derive(Debug, Clone, Copy, PartialEq, Eq, Structural)]
pub enum CircuitState {
    /// Traffic passes.
    Closed,
    /// Too many failures: traffic is blocked until the window has passed.
    Open,
    /// Recovery is being tested.
    HalfOpen,
}

/// What a circuit breaker holds.
pub struct BreakerView {
    pub state: CircuitState,
    pub failure_count: u32,
    pub last_failure_time_ms: u64,
    pub threshold: u32,
    pub window_ms: u64,
}

pub struct CircuitBreaker {
    state: CircuitState,
    failure_count: u32,
    last_failure_time_ms: u64,
    threshold: u32,
    window_ms: u64,
}

/// `a - b`, or 0 where `b > a`.
pub open spec fn saturating_diff(a: u64, b: u64) -> int {
    if a >= b {
        a - b
    } else {
        0
    }
}

/// The breaker after a failure recorded at `now_ms`.
pub open spec fn breaker_after_failure(b: BreakerView, now_ms: u64) -> BreakerView {
    BreakerView {
        state: if b.failure_count + 1 >= b.threshold {
            CircuitState::Open
        } else {
            b.state
        },
        failure_count: (b.failure_count + 1) as u32,
        last_failure_time_ms: now_ms,
        threshold: b.threshold,
        window_ms: b.window_ms,
    }
}

/// The breaker after a success.
pub open spec fn breaker_after_success(b: BreakerView) -> BreakerView {
    BreakerView { state: CircuitState::Closed, failure_count: 0, ..b }
}

/// Whether the breaker lets a request through at `now_ms`.
pub open spec fn breaker_allows(b: BreakerView, now_ms: u64) -> bool {
    match b.state {
        CircuitState::Closed => true,
        CircuitState::Open => saturating_diff(now_ms, b.last_failure_time_ms) >= b.window_ms,
        CircuitState::HalfOpen => true,
    }
}

/// A fresh breaker.
pub open spec fn breaker_fresh(threshold: u32, window_ms: u64) -> BreakerView {
    BreakerView {
        state: CircuitState::Closed,
        failure_count: 0,
        last_failure_time_ms: 0,
        threshold,
        window_ms,
    }
}

impl View for CircuitBreaker {
    type V = BreakerView;

    closed spec fn view(&self) -> BreakerView {
        BreakerView {
            state: self.state,
            failure_count: self.failure_count,
            last_failure_time_ms: self.last_failure_time_ms,
            threshold: self.threshold,
            window_ms: self.window_ms,
        }
    }
}

impl CircuitBreaker {
    pub fn new(threshold: u32, window_ms: u64) -> (r: Self)
        ensures
            r@ == breaker_fresh(threshold, window_ms),
    {
        CircuitBreaker {
            state: CircuitState::Closed,
            failure_count: 0,
            last_failure_time_ms: 0,
            threshold,
            window_ms,
        }
    }

    pub fn record_failure(&mut self, now_ms: u64)
        requires
            old(self)@.failure_count < u32::MAX,
        ensures
            final(self)@ == breaker_after_failure(old(self)@, now_ms),
    {
        self.failure_count += 1;
        self.last_failure_time_ms = now_ms;
        if self.failure_count >= self.threshold {
            self.state = CircuitState::Open;
        }
    }

    pub fn record_success(&mut self)
        ensures
            final(self)@ == breaker_after_success(old(self)@),
    {
        self.failure_count = 0;
        self.state = CircuitState::Closed;
    }

    pub fn can_execute(&self, now_ms: u64) -> (r: bool)
        ensures
            r == breaker_allows(self@, now_ms),
    {
        match self.state {
            CircuitState::Closed => true,
            CircuitState::Open => now_ms.saturating_sub(self.last_failure_time_ms) >= self.window_ms,
            CircuitState::HalfOpen => true,
        }
    }

    pub fn transition_to_half_open(&mut self)
        ensures
            final(self)@ == (if old(self)@.state == CircuitState::Open {
                BreakerView { state: CircuitState::HalfOpen, ..old(self)@ }
            } else {
                old(self)@
            }),
    {
        if self.state == CircuitState::Open {
            self.state = CircuitState::HalfOpen;
        }
    }

    pub fn state(&self) -> (r: CircuitState)
        ensures
            r == self@.state,
    {
        self.state
    }
}

/// The breaker after failures recorded at each time of `times`, in order.
pub open spec fn breaker_after_failures(b: BreakerView, times: Seq<u64>) -> BreakerView
    decreases times.len(),
{
    if times.len() == 0 {
        b
    } else {
        breaker_after_failure(breaker_after_failures(b, times.drop_last()), times.last())
    }
}

/// A fresh breaker stays closed until `max(threshold, 1)` failures have been
/// recorded, and is open from then on.
pub proof fn law_breaker_opens_at_threshold(threshold: u32, window_ms: u64, times: Seq<u64>)
    requires
        times.len() < u32::MAX,
    ensures
        breaker_after_failures(breaker_fresh(threshold, window_ms), times).failure_count
            == times.len(),
        breaker_after_failures(breaker_fresh(threshold, window_ms), times).state == (if times.len()
            >= 1 && times.len() >= threshold {
            CircuitState::Open
        } else {
            CircuitState::Closed
        }),
        times.len() >= 1 ==> breaker_after_failures(
            breaker_fresh(threshold, window_ms),
            times,
        ).last_failure_time_ms == times.last(),
        breaker_after_failures(breaker_fresh(threshold, window_ms), times).threshold == threshold,
        breaker_after_failures(breaker_fresh(threshold, window_ms), times).window_ms == window_ms,
    decreases times.len(),
{
    if times.len() > 0 {
        law_breaker_opens_at_threshold(threshold, window_ms, times.drop_last());
        let prev = breaker_after_failures(breaker_fresh(threshold, window_ms), times.drop_last());
        assert(prev.failure_count == times.len() - 1);
        assert((prev.failure_count + 1) as u32 == times.len());
    }
}

/// Once a failure opens the breaker, it blocks every request that comes
/// sooner than the window after that failure, and lets through every one
/// that comes at or after it.
pub proof fn law_open_breaker_blocks_within_window(b: BreakerView, now_ms: u64, later_ms: u64)
    requires
        breaker_after_failure(b, now_ms).state == CircuitState::Open,
        later_ms >= now_ms,
    ensures
        breaker_allows(breaker_after_failure(b, now_ms), later_ms) <==> later_ms - now_ms
            >= b.window_ms,
{
}

/// A success closes the breaker, clears the failures, and lets every
/// request through.
pub proof fn law_success_reopens_traffic(b: BreakerView, now_ms: u64)
    ensures
        breaker_after_success(b).state == CircuitState::Closed,
        breaker_after_success(b).failure_count == 0,
        breaker_allows(breaker_after_success(b), now_ms),
{
}

// ---------------------------------------------------------------------------
// ProAct-BFT (L1): silent quarantine, honeypot, sinkhole
// ---------------------------------------------------------------------------

/// Verdict of the semantic analysis.
#[derive(Debug, Clone, Copy, PartialEq, Eq, Structural)]
pub enum SemanticVerdict {
    Clean,
    Suspicious,
    Violation,
    Obfuscated,
}

/// An agent's honeypot record.
#[derive(Debug, Clone, Copy, PartialEq, Eq, Structural)]
pub struct HoneypotState {
    pub activated_at_ms: u64,
    pub interaction_count: u32,
}

/// What a ProAct-BFT instance holds: per region (by its text) the agents in
/// silent quarantine, in the order they were quarantined; the agents in the
/// honeypot; and the number of absorbed attempts.
pub struct ProActView {
    pub quarantine: Map<Seq<char>, Seq<AgentId>>,
    pub honeypot: Map<AgentId, HoneypotState>,
    pub sinkhole_count: u64,
}

/// Silent quarantine, honeypot and sinkhole: an attacker gets no feedback.
pub struct ProActBFT {
    quarantine: Vec<(RegionId, Vec<AgentId>)>,
    honeypot: Vec<(AgentId, HoneypotState)>,
    sinkhole_count: u64,
}

pub open spec fn region_entries(q: Seq<(RegionId, Vec<AgentId>)>) -> Seq<(Seq<char>, Seq<AgentId>)> {
    q.map_values(|e: (RegionId, Vec<AgentId>)| (e.0@, e.1@))
}

/// Whether `agent` is quarantined in `region` according to `m`.
pub open spec fn quarantined_in(m: Map<Seq<char>, Seq<AgentId>>, region: Seq<char>, agent: AgentId) -> bool {
    m.contains_key(region) && m[region].contains(agent)
}

/// The quarantine map after quarantining `agent` in `region`.
pub open spec fn quarantine_insert(
    m: Map<Seq<char>, Seq<AgentId>>,
    region: Seq<char>,
    agent: AgentId,
) -> Map<Seq<char>, Seq<AgentId>> {
    if !m.contains_key(region) {
        m.insert(region, seq![agent])
    } else if m[region].contains(agent) {
        m
    } else {
        m.insert(region, m[region].push(agent))
    }
}

/// A call that changes a ProAct-BFT instance.
pub enum ProActCall {
    /// `silent_quarantine` of an agent in a region (by its text).
    Quarantine(Seq<char>, AgentId),
    /// `engage_honeypot` of an agent at a time.
    Honeypot(AgentId, u64),
    /// `sinkhole_absorb`.
    Absorb,
}

/// The instance that `new` gives: nothing quarantined, nobody in the
/// honeypot, nothing absorbed.
pub open spec fn proact_empty() -> ProActView {
    ProActView {
        quarantine: Map::empty(),
        honeypot: Map::empty(),
        sinkhole_count: 0,
    }
}

/// What one call does to the instance.
pub open spec fn proact_step(v: ProActView, c: ProActCall) -> ProActView {
    match c {
        ProActCall::Quarantine(region, agent) => ProActView {
            quarantine: quarantine_insert(v.quarantine, region, agent),
            honeypot: v.honeypot,
            sinkhole_count: v.sinkhole_count,
        },
        ProActCall::Honeypot(agent, now_ms) => ProActView {
            quarantine: v.quarantine,
            honeypot: v.honeypot.insert(
                agent,
                HoneypotState { activated_at_ms: now_ms, interaction_count: 0 },
            ),
            sinkhole_count: v.sinkhole_count,
        },
        ProActCall::Absorb => ProActView {
            quarantine: v.quarantine,
            honeypot: v.honeypot,
            sinkhole_count: (v.sinkhole_count + 1) as u64,
        },
    }
}

/// The instance after the calls `cs`, in order, from `v`.
pub open spec fn proact_run(v: ProActView, cs: Seq<ProActCall>) -> ProActView
    decreases cs.len(),
{
    if cs.len() == 0 {
        v
    } else {
        proact_step(proact_run(v, cs.drop_last()), cs.last())
    }
}

/// Number of absorbing calls.
pub open spec fn count_absorbs(cs: Seq<ProActCall>) -> nat
    decreases cs.len(),
{
    if cs.len() == 0 {
        0
    } else {
        count_absorbs(cs.drop_last()) + (if cs.last() is Absorb {
            1nat
        } else {
            0nat
        })
    }
}

/// Some call quarantines `agent` in `region`.
pub open spec fn quarantine_called(cs: Seq<ProActCall>, region: Seq<char>, agent: AgentId) -> bool {
    exists|i: int| 0 <= i < cs.len() && #[trigger] cs[i] == ProActCall::Quarantine(region, agent)
}

/// Some call sends `agent` to the honeypot.
pub open spec fn honeypot_called(cs: Seq<ProActCall>, agent: AgentId) -> bool {
    exists|i: int| 0 <= i < cs.len() && (#[trigger] cs[i] matches ProActCall::Honeypot(a, _) && a == agent)
}

/// Quarantining adds exactly the one pair.
pub proof fn law_quarantine_adds_exactly(
    m: Map<Seq<char>, Seq<AgentId>>,
    region: Seq<char>,
    agent: AgentId,
    r2: Seq<char>,
    a2: AgentId,
)
    ensures
        quarantined_in(quarantine_insert(m, region, agent), r2, a2) <==> quarantined_in(m, r2, a2)
            || (r2 == region && a2 == agent),
{
    law_quarantine_idempotent(m, region, agent);
    let m1 = quarantine_insert(m, region, agent);
    if quarantined_in(m1, r2, a2) && !(r2 == region && a2 == agent) {
        if r2 == region && m.contains_key(region) && !m[region].contains(agent) {
            let k = choose|k: int| 0 <= k < m1[region].len() && m1[region][k] == a2;
            assert(k < m[region].len());
            assert(m[region][k] == a2);
        }
    }
}

proof fn lemma_proact_run(v: ProActView, cs: Seq<ProActCall>)
    requires
        v.sinkhole_count + count_absorbs(cs) <= u64::MAX,
    ensures
        forall|r: Seq<char>, a: AgentId|
            #[trigger] quarantined_in(proact_run(v, cs).quarantine, r, a) <==> quarantined_in(
                v.quarantine,
                r,
                a,
            ) || quarantine_called(cs, r, a),
        forall|a: AgentId|
            #[trigger] proact_run(v, cs).honeypot.contains_key(a) <==> v.honeypot.contains_key(a)
                || honeypot_called(cs, a),
        proact_run(v, cs).sinkhole_count == v.sinkhole_count + count_absorbs(cs),
    decreases cs.len(),
{
    if cs.len() > 0 {
        let p = cs.drop_last();
        lemma_proact_run(v, p);
        let w = proact_run(v, p);
        let c = cs.last();
        assert forall|r: Seq<char>, a: AgentId|
            #[trigger] quarantined_in(proact_run(v, cs).quarantine, r, a) <==> quarantined_in(
                v.quarantine,
                r,
                a,
            ) || quarantine_called(cs, r, a) by {
            if quarantine_called(p, r, a) {
                let i = choose|i: int| 0 <= i < p.len() && #[trigger] p[i] == ProActCall::Quarantine(r, a);
                assert(cs[i] == p[i]);
            }
            if quarantine_called(cs, r, a) && !quarantine_called(p, r, a) {
                let i = choose|i: int| 0 <= i < cs.len() && #[trigger] cs[i] == ProActCall::Quarantine(r, a);
                if i < p.len() {
                    assert(p[i] == cs[i]);
                }
                assert(i == cs.len() - 1);
            }
            match c {
                ProActCall::Quarantine(region, agent) => {
                    law_quarantine_adds_exactly(w.quarantine, region, agent, r, a);
                    if r == region && a == agent {
                        assert(cs[cs.len() - 1] == ProActCall::Quarantine(r, a));
                    }
                },
                _ => {},
            }
        }
        assert forall|a: AgentId|
            #[trigger] proact_run(v, cs).honeypot.contains_key(a) <==> v.honeypot.contains_key(a)
                || honeypot_called(cs, a) by {
            if honeypot_called(p, a) {
                let i = choose|i: int|
                    0 <= i < p.len() && (#[trigger] p[i] matches ProActCall::Honeypot(x, _) && x == a);
                assert(cs[i] == p[i]);
            }
            if honeypot_called(cs, a) && !honeypot_called(p, a) {
                let i = choose|i: int|
                    0 <= i < cs.len() && (#[trigger] cs[i] matches ProActCall::Honeypot(x, _) && x == a);
                if i < p.len() {
                    assert(p[i] == cs[i]);
                }
                assert(i == cs.len() - 1);
            }
            match c {
                ProActCall::Honeypot(agent, t) => {
                    if agent == a {
                        assert(cs[cs.len() - 1] == c);
                    }
                },
                _ => {},
            }
        }
    }
}

/// Over any run of calls from a new instance: an agent is quarantined in a
/// region exactly when some call quarantined it there; an agent is in the
/// honeypot exactly when some call sent it there; and the sinkhole count is
/// the number of absorbing calls.
pub proof fn law_proact_run(cs: Seq<ProActCall>)
    requires
        count_absorbs(cs) <= u64::MAX,
    ensures
        forall|r: Seq<char>, a: AgentId|
            #[trigger] quarantined_in(proact_run(proact_empty(), cs).quarantine, r, a)
                <==> quarantine_called(cs, r, a),
        forall|a: AgentId|
            #[trigger] proact_run(proact_empty(), cs).honeypot.contains_key(a) <==> honeypot_called(
                cs,
                a,
            ),
        proact_run(proact_empty(), cs).sinkhole_count == count_absorbs(cs),
{
    lemma_proact_run(proact_empty(), cs);
}

impl View for ProActBFT {
    type V = ProActView;

    closed spec fn view(&self) -> ProActView {
        ProActView {
            quarantine: assoc_map(region_entries(self.quarantine@)),
            honeypot: assoc_map(self.honeypot@),
            sinkhole_count: self.sinkhole_count,
        }
    }
}

impl ProActBFT {
    /// Regions occur once in the quarantine list and agents once in the honeypot list.
    pub closed spec fn wf(&self) -> bool {
        &&& distinct_keys(region_entries(self.quarantine@))
        &&& distinct_keys(self.honeypot@)
    }

    pub fn new() -> (r: Self)
        ensures
            r.wf(),
            r@.quarantine == Map::<Seq<char>, Seq<AgentId>>::empty(),
            r@.honeypot == Map::<AgentId, HoneypotState>::empty(),
            r@.sinkhole_count == 0,
            r@ == proact_empty(),
    {
        let r = ProActBFT { quarantine: Vec::new(), honeypot: Vec::new(), sinkhole_count: 0 };
        assert(region_entries(r.quarantine@) =~= Seq::empty());
        r
    }

    fn find_region(&self, region: RegionId) -> (r: Option<usize>)
        ensures
            match r {
                Some(i) => i < self.quarantine@.len() && self.quarantine@[i as int].0@ == region@,
                None => forall|i: int|
                    0 <= i < self.quarantine@.len() ==> self.quarantine@[i].0@ != region@,
            },
    {
        let mut i: usize = 0;
        while i < self.quarantine.len()
            invariant
                0 <= i <= self.quarantine@.len(),
                forall|k: int| 0 <= k < i ==> self.quarantine@[k].0@ != region@,
            decreases self.quarantine@.len() - i,
        {
            if strs_equal(self.quarantine[i].0, region) {
                return Some(i);
            }
            i += 1;
        }
        None
    }

    fn find_honeypot(&self, agent: &AgentId) -> (r: Option<usize>)
        ensures
            match r {
                Some(i) => i < self.honeypot@.len() && self.honeypot@[i as int].0 == *agent,
                None => forall|i: int|
                    0 <= i < self.honeypot@.len() ==> self.honeypot@[i].0 != *agent,
            },
    {
        let mut i: usize = 0;
        while i < self.honeypot.len()
            invariant
                0 <= i <= self.honeypot@.len(),
                forall|k: int| 0 <= k < i ==> self.honeypot@[k].0 != *agent,
            decreases self.honeypot@.len() - i,
        {
            if ids32_equal(&self.honeypot[i].0, agent) {
                return Some(i);
            }
            i += 1;
        }
        None
    }

    /// Quarantines `agent` in `region` without any notification.
    pub fn silent_quarantine(&mut self, region: RegionId, agent: AgentId, _now_ms: u64)
        requires
            old(self).wf(),
        ensures
            final(self).wf(),
            final(self)@.quarantine == quarantine_insert(old(self)@.quarantine, region@, agent),
            final(self)@.honeypot == old(self)@.honeypot,
            final(self)@.sinkhole_count == old(self)@.sinkhole_count,
            final(self)@ == proact_step(old(self)@, ProActCall::Quarantine(region@, agent)),
    {
        let ghost old_entries = region_entries(self.quarantine@);
        match self.find_region(region) {
            Some(i) => {
                let ghost old_agents = self.quarantine@[i as int].1@;
                proof {
                    assert(old_entries[i as int] == (region@, old_agents));
                    lemma_assoc_index(old_entries, i as int);
                }
                let (r, mut agents) = self.quarantine.remove(i);
                if !contains_agent(&agents, &agent) {
                    agents.push(agent);
                }
                let ghost new_agents = agents@;
                self.quarantine.insert(i, (r, agents));
                proof {
                    let new_entries = region_entries(self.quarantine@);
                    assert(new_entries =~= old_entries.update(i as int, (region@, new_agents)));
                    lemma_assoc_update(old_entries, i as int, new_agents);
                }
            },
            None => {
                let mut agents = Vec::new();
                agents.push(agent);
                let ghost new_agents = agents@;
                self.quarantine.push((region, agents));
                proof {
                    let new_entries = region_entries(self.quarantine@);
                    assert(new_entries =~= old_entries.push((region@, new_agents)));
                    assert forall|k: int| 0 <= k < old_entries.len() implies old_entries[k].0
                        != region@ by {
                        assert(old_entries[k].0 == old(self).quarantine@[k].0@);
                    }
                    lemma_assoc_absent(old_entries, region@);
                    lemma_assoc_push(old_entries, region@, new_agents);
                    assert(new_agents =~= seq![agent]);
                }
            },
        }
        proof {
            assert(self@.quarantine =~= quarantine_insert(old(self)@.quarantine, region@, agent));
        }
    }

    /// Sends `agent` to the honeypot, recording the time.
    pub fn engage_honeypot(&mut self, agent: AgentId, now_ms: u64)
        requires
            old(self).wf(),
        ensures
            final(self).wf(),
            final(self)@.honeypot == old(self)@.honeypot.insert(
                agent,
                HoneypotState { activated_at_ms: now_ms, interaction_count: 0 },
            ),
            final(self)@.quarantine == old(self)@.quarantine,
            final(self)@.sinkhole_count == old(self)@.sinkhole_count,
            final(self)@ == proact_step(old(self)@, ProActCall::Honeypot(agent, now_ms)),
    {
        let st = HoneypotState { activated_at_ms: now_ms, interaction_count: 0 };
        let ghost old_h = self.honeypot@;
        match self.find_honeypot(&agent) {
            Some(i) => {
                self.honeypot.set(i, (agent, st));
                proof {
                    assert(self.honeypot@ =~= old_h.update(i as int, (old_h[i as int].0, st)));
                    lemma_assoc_update(old_h, i as int, st);
                }
            },
            None => {
                self.honeypot.push((agent, st));
                proof {
                    lemma_assoc_push(old_h, agent, st);
                }
            },
        }
    }

    /// Absorbs an attempt: reports success, drops the action, counts it.
    pub fn sinkhole_absorb(&mut self) -> (r: FirewallResult<()>)
        requires
            old(self)@.sinkhole_count < u64::MAX,
        ensures
            r == Ok::<(), (FirewallErrorCode, FirewallReason)>(()),
            final(self)@.sinkhole_count == old(self)@.sinkhole_count + 1,
            final(self)@.quarantine == old(self)@.quarantine,
            final(self)@.honeypot == old(self)@.honeypot,
            final(self).wf() == old(self).wf(),
            final(self)@ == proact_step(old(self)@, ProActCall::Absorb),
    {
        self.sinkhole_count += 1;
        Ok(())
    }

    pub fn is_quarantined(&self, region: RegionId, agent: AgentId) -> (r: bool)
        requires
            self.wf(),
        ensures
            r == quarantined_in(self@.quarantine, region@, agent),
    {
        let ghost entries = region_entries(self.quarantine@);
        match self.find_region(region) {
            Some(i) => {
                proof {
                    assert(entries[i as int].0 == region@);
                    lemma_assoc_index(entries, i as int);
                }
                contains_agent(&self.quarantine[i].1, &agent)
            },
            None => {
                proof {
                    assert forall|k: int| 0 <= k < entries.len() implies entries[k].0 != region@ by {
                        assert(entries[k].0 == self.quarantine@[k].0@);
                    }
                    lemma_assoc_absent(entries, region@);
                }
                false
            },
        }
    }

    pub fn is_honeypot(&self, agent: AgentId) -> (r: bool)
        requires
            self.wf(),
        ensures
            r == self@.honeypot.contains_key(agent),
    {
        proof {
            lemma_assoc_contains(self.honeypot@, agent);
        }
        self.find_honeypot(&agent).is_some()
    }

    pub fn sinkhole_count(&self) -> (r: u64)
        ensures
            r == self@.sinkhole_count,
    {
        self.sinkhole_count
    }
}

fn contains_agent(agents: &Vec<AgentId>, agent: &AgentId) -> (r: bool)
    ensures
        r == agents@.contains(*agent),
{
    let mut i: usize = 0;
    while i < agents.len()
        invariant
            0 <= i <= agents@.len(),
            forall|k: int| 0 <= k < i ==> agents@[k] != *agent,
        decreases agents@.len() - i,
    {
        if ids32_equal(&agents[i], agent) {
            return true;
        }
        i += 1;
    }
    false
}

/// Quarantining is idempotent, and the agent is quarantined afterwards.
pub proof fn law_quarantine_idempotent(m: Map<Seq<char>, Seq<AgentId>>, region: Seq<char>, agent: AgentId)
    ensures
        quarantined_in(quarantine_insert(m, region, agent), region, agent),
        quarantine_insert(quarantine_insert(m, region, agent), region, agent) == quarantine_insert(
            m,
            region,
            agent,
        ),
        forall|r2: Seq<char>, a2: AgentId|
            quarantined_in(m, r2, a2) ==> quarantined_in(quarantine_insert(m, region, agent), r2, a2),
{
    let m1 = quarantine_insert(m, region, agent);
    if m.contains_key(region) && !m[region].contains(agent) {
        assert(m1[region][m[region].len() as int] == agent);
        assert forall|r2: Seq<char>, a2: AgentId|
            quarantined_in(m, r2, a2) implies quarantined_in(m1, r2, a2) by {
            if r2 == region {
                let k = choose|k: int| 0 <= k < m[region].len() && m[region][k] == a2;
                assert(m1[region][k] == a2);
            }
        }
    } else if !m.contains_key(region) {
        assert(m1[region][0] == agent);
    }
}

/// Inference inside a trusted execution environment; implemented by users of
/// the firewall for SGX, TrustZone or SEV enclaves.
pub trait TeeSecureInference {
    /// Runs semantic inference inside the enclave.
    fn infer_secure(&self, input: &[u8], model_hash: &[u8; 32]) -> Result<
        IntentTensor,
        FirewallErrorCode,
    >;

    /// Checks the enclave's attestation.
    fn verify_attestation(&self, quote: &[u8], expected_mrenclave: &[u8; 32]) -> Result<
        (),
        FirewallErrorCode,
    >;
}

// ---------------------------------------------------------------------------
// Semantic analysis (L2)
// ---------------------------------------------------------------------------

/// Sum of the first `n` components of `s`.
pub open spec fn prefix_sum(s: Seq<i8>, n: int) -> int
    decreases n,
{
    if n <= 0 {
        0
    } else {
        prefix_sum(s, n - 1) + s[n - 1] as int
    }
}

/// Integer division rounding toward zero, as `/` on signed integers does.
pub open spec fn div_toward_zero(a: int, b: int) -> int {
    if a >= 0 {
        a / b
    } else {
        -((-a) / b)
    }
}

pub open spec fn clamp_int(x: int, lo: int, hi: int) -> int {
    if x < lo {
        lo
    } else if x > hi {
        hi
    } else {
        x
    }
}

/// The safety score: the mean of the components, rounded toward zero and
/// clamped to the range of `i8`.
pub open spec fn safety_score(e: Seq<i8>) -> int {
    clamp_int(div_toward_zero(prefix_sum(e, EMBEDDING_DIM as int), EMBEDDING_DIM as int), -128, 127)
}

/// Whether the spread of the components (max - min) exceeds the threshold.
pub open spec fn obfuscated(e: Seq<i8>) -> bool {
    exists|i: int, j: int|
        0 <= i < EMBEDDING_DIM && 0 <= j < EMBEDDING_DIM && e[i] - e[j] > OBSCURATION_THRESHOLD
}

/// The verdict, score and reason of the semantic analysis.
pub open spec fn semantic_analysis(e: Seq<i8>) -> (SemanticVerdict, i32, FirewallReason) {
    let score = safety_score(e) as i32;
    if safety_score(e) < SAFETY_SCORE_THRESHOLD {
        (SemanticVerdict::Violation, score, FirewallReason::SafetyScoreBelowThreshold)
    } else if obfuscated(e) {
        (SemanticVerdict::Obfuscated, score, FirewallReason::IntentObfuscationSuspected)
    } else {
        (SemanticVerdict::Clean, score, FirewallReason::Unknown)
    }
}

proof fn lemma_prefix_sum_bounds(s: Seq<i8>, n: int)
    requires
        0 <= n <= s.len(),
    ensures
        -128 * n <= prefix_sum(s, n) <= 127 * n,
    decreases n,
{
    if n > 0 {
        lemma_prefix_sum_bounds(s, n - 1);
    }
}

proof fn lemma_prefix_sum_zeros(s: Seq<i8>, n: int)
    requires
        0 <= n <= s.len(),
        forall|i: int| 0 <= i < s.len() ==> s[i] == 0,
    ensures
        prefix_sum(s, n) == 0,
    decreases n,
{
    if n > 0 {
        lemma_prefix_sum_zeros(s, n - 1);
    }
}

/// The tensor `e` with its components `i` and `j` exchanged.
pub open spec fn swapped(e: Seq<i8>, i: int, j: int) -> Seq<i8> {
    e.update(i, e[j]).update(j, e[i])
}

proof fn lemma_prefix_sum_swapped(e: Seq<i8>, i: int, j: int, n: int)
    requires
        0 <= i < j < e.len(),
        0 <= n <= e.len(),
    ensures
        prefix_sum(swapped(e, i, j), n) == if n <= i || n > j {
            prefix_sum(e, n)
        } else {
            prefix_sum(e, n) - e[i] + e[j]
        },
    decreases n,
{
    if n > 0 {
        lemma_prefix_sum_swapped(e, i, j, n - 1);
    }
}

/// The safety score is the mean of every component: it does not depend on
/// their order (exchanging any two components leaves it unchanged), and a
/// tensor whose components all equal `c` scores `c`.
pub proof fn law_safety_score_is_the_mean(e: Seq<i8>, i: int, j: int, c: i8)
    requires
        e.len() == EMBEDDING_DIM,
        0 <= i < j < EMBEDDING_DIM,
    ensures
        safety_score(swapped(e, i, j)) == safety_score(e),
        (forall|k: int| 0 <= k < EMBEDDING_DIM ==> e[k] == c) ==> safety_score(e) == c,
{
    lemma_prefix_sum_swapped(e, i, j, EMBEDDING_DIM as int);
    if forall|k: int| 0 <= k < EMBEDDING_DIM ==> e[k] == c {
        lemma_prefix_sum_constant(e, c, EMBEDDING_DIM as int);
        assert(div_toward_zero(768 * c, 768) == c) by (nonlinear_arith);
    }
}

proof fn lemma_prefix_sum_constant(e: Seq<i8>, c: i8, n: int)
    requires
        0 <= n <= e.len(),
        forall|k: int| 0 <= k < e.len() ==> e[k] == c,
    ensures
        prefix_sum(e, n) == n * c,
    decreases n,
{
    if n > 0 {
        lemma_prefix_sum_constant(e, c, n - 1);
        assert(e[n - 1] == c);
        assert((n - 1) * c + c == n * c) by (nonlinear_arith);
        assert(prefix_sum(e, n) == prefix_sum(e, n - 1) + e[n - 1] as int);
    } else {
        assert(n * c == 0) by (nonlinear_arith)
            requires
                n == 0,
        ;
    }
}

pub fn calculate_safety_score(embedding: &IntentTensor) -> (r: i32)
    ensures
        r == safety_score(embedding@),
{
    let mut sum: i32 = 0;
    let mut i: usize = 0;
    while i < EMBEDDING_DIM
        invariant
            0 <= i <= EMBEDDING_DIM,
            embedding@.len() == EMBEDDING_DIM,
            sum == prefix_sum(embedding@, i as int),
        decreases EMBEDDING_DIM - i,
    {
        proof {
            lemma_prefix_sum_bounds(embedding@, i as int + 1);
        }
        sum += embedding[i] as i32;
        i += 1;
    }
    let score = sum / 768;
    if score < -128 {
        -128
    } else if score > 127 {
        127
    } else {
        score
    }
}

pub fn is_suspiciously_obfuscated(embedding: &IntentTensor) -> (r: bool)
    ensures
        r == obfuscated(embedding@),
{
    let mut min_val: i8 = i8::MAX;
    let mut max_val: i8 = i8::MIN;
    let ghost mut kmin: int = 0;
    let ghost mut kmax: int = 0;
    let mut i: usize = 0;
    while i < EMBEDDING_DIM
        invariant
            0 <= i <= EMBEDDING_DIM,
            embedding@.len() == EMBEDDING_DIM,
            forall|k: int| 0 <= k < i ==> min_val <= #[trigger] embedding@[k] <= max_val,
            i == 0 ==> min_val == i8::MAX && max_val == i8::MIN,
            i > 0 ==> 0 <= kmin < i && embedding@[kmin] == min_val,
            i > 0 ==> 0 <= kmax < i && embedding@[kmax] == max_val,
        decreases EMBEDDING_DIM - i,
    {
        let val = embedding[i];
        assert(val == embedding@[i as int]);
        if val < min_val {
            min_val = val;
            proof {
                kmin = i as int;
            }
        }
        if val > max_val {
            max_val = val;
            proof {
                kmax = i as int;
            }
        }
        if i == 0 {
            proof {
                kmin = 0;
                kmax = 0;
            }
        }
        i += 1;
    }
    let range: i16 = (max_val as i16) - (min_val as i16);
    let r = range > 100i16;
    proof {
        if r {
            assert(embedding@[kmax] - embedding@[kmin] > OBSCURATION_THRESHOLD);
        }
    }
    r
}

pub fn analyze_semantic_intent(embedding: &IntentTensor) -> (r: (SemanticVerdict, i32, FirewallReason))
    ensures
        r == semantic_analysis(embedding@),
{
    let safety_score = calculate_safety_score(embedding);
    if safety_score < SAFETY_SCORE_THRESHOLD {
        return (SemanticVerdict::Violation, safety_score, FirewallReason::SafetyScoreBelowThreshold);
    }
    if is_suspiciously_obfuscated(embedding) {
        return (SemanticVerdict::Obfuscated, safety_score, FirewallReason::IntentObfuscationSuspected);
    }
    (SemanticVerdict::Clean, safety_score, FirewallReason::Unknown)
}

/// The neutral tensor that the firewall answers in silence.
pub open spec fn neutral_tensor() -> Seq<i8> {
    Seq::new(EMBEDDING_DIM as nat, |i: int| 0i8)
}

/// The neutral tensor scores 0, below the safety threshold.
pub proof fn law_neutral_tensor_is_a_violation()
    ensures
        safety_score(neutral_tensor()) == 0,
        semantic_analysis(neutral_tensor()).0 == SemanticVerdict::Violation,
        semantic_analysis(neutral_tensor()).2 == FirewallReason::SafetyScoreBelowThreshold,
{
    lemma_prefix_sum_zeros(neutral_tensor(), EMBEDDING_DIM as int);
}

// ---------------------------------------------------------------------------
// Firewall orchestration L0 -> L1 -> L2
// ---------------------------------------------------------------------------

pub type FirewallResult<T> = Result<T, (FirewallErrorCode, FirewallReason)>;

/// What the firewall holds.
pub struct FirewallView {
    pub breaker: BreakerView,
    pub proact: ProActView,
    /// Whether an enclave is attached; without one the tensor is the neutral one.
    pub has_tee: bool,
}

pub struct TemporalSemanticFirewall {
    circuit_breaker: CircuitBreaker,
    proact: ProActBFT,
    tee: Option<Box<dyn TeeSecureInference>>,
}

impl View for TemporalSemanticFirewall {
    type V = FirewallView;

    closed spec fn view(&self) -> FirewallView {
        FirewallView {
            breaker: self.circuit_breaker@,
            proact: self.proact@,
            has_tee: self.tee.is_some(),
        }
    }
}

/// The firewall's answer, and its state afterwards, to an intent that
/// passes L0 and L1 and whose tensor is `e`.
pub open spec fn firewall_after_analysis(
    f: FirewallView,
    agent: AgentId,
    region: Seq<char>,
    e: Seq<i8>,
    now_ms: u64,
) -> (FirewallView, Result<Seq<i8>, (FirewallErrorCode, FirewallReason)>) {
    let (verdict, score, reason) = semantic_analysis(e);
    match verdict {
        SemanticVerdict::Clean => (FirewallView { breaker: breaker_after_success(f.breaker), ..f }, Ok(e)),
        SemanticVerdict::Suspicious => (
            FirewallView { breaker: breaker_after_failure(f.breaker, now_ms), ..f },
            Err((FirewallErrorCode::SemanticViolation, reason)),
        ),
        SemanticVerdict::Violation => (
            FirewallView {
                breaker: breaker_after_failure(f.breaker, now_ms),
                proact: ProActView {
                    quarantine: quarantine_insert(f.proact.quarantine, region, agent),
                    ..f.proact
                },
                ..f
            },
            Err((FirewallErrorCode::QuarantineTriggered, reason)),
        ),
        SemanticVerdict::Obfuscated => (
            FirewallView {
                breaker: breaker_after_failure(f.breaker, now_ms),
                proact: ProActView {
                    honeypot: f.proact.honeypot.insert(
                        agent,
                        HoneypotState { activated_at_ms: now_ms, interaction_count: 0 },
                    ),
                    ..f.proact
                },
                ..f
            },
            Err((FirewallErrorCode::HoneypotActivated, reason)),
        ),
    }
}

/// The answer `r` and the state `after` are those of the analysis of tensor `e`.
pub open spec fn analysis_outcome(
    before: FirewallView,
    agent: AgentId,
    region: Seq<char>,
    e: Seq<i8>,
    now_ms: u64,
    after: FirewallView,
    r: FirewallResult<IntentTensor>,
) -> bool {
    let (f, res) = firewall_after_analysis(before, agent, region, e, now_ms);
    &&& after == f
    &&& match (r, res) {
        (Ok(t), Ok(e2)) => t@ == e2,
        (Err(x), Err(y)) => x == y,
        _ => false,
    }
}

impl TemporalSemanticFirewall {
    pub closed spec fn wf(&self) -> bool {
        self.proact.wf()
    }

    pub fn new() -> (r: Self)
        ensures
            r.wf(),
            r@.breaker == breaker_fresh(CIRCUIT_BREAKER_THRESHOLD, CIRCUIT_BREAKER_WINDOW_MS),
            r@.proact.quarantine == Map::<Seq<char>, Seq<AgentId>>::empty(),
            r@.proact.honeypot == Map::<AgentId, HoneypotState>::empty(),
            r@.proact.sinkhole_count == 0,
            !r@.has_tee,
    {
        TemporalSemanticFirewall {
            circuit_breaker: CircuitBreaker::new(CIRCUIT_BREAKER_THRESHOLD, CIRCUIT_BREAKER_WINDOW_MS),
            proact: ProActBFT::new(),
            tee: None,
        }
    }

    /// Full pipeline for one intent.
    ///
    /// L0 blocks while the breaker is open; a quarantined agent gets the
    /// neutral tensor in silence; an agent in the honeypot is absorbed by the
    /// sinkhole and gets the neutral tensor; otherwise the tensor (from the
    /// enclave, or the neutral one without an enclave) is analysed, and a
    /// violation quarantines the agent while an obfuscated intent sends it to
    /// the honeypot.
    pub fn process_intent(&mut self, agent: AgentId, region: RegionId, raw_input: &[u8], now_ms: u64) -> (r:
        FirewallResult<IntentTensor>)
        requires
            old(self).wf(),
            old(self)@.breaker.failure_count < u32::MAX,
            old(self)@.proact.sinkhole_count < u64::MAX,
        ensures
            final(self).wf(),
            final(self)@.has_tee == old(self)@.has_tee,
            !breaker_allows(old(self)@.breaker, now_ms) ==> {
                &&& r == Err::<IntentTensor, (FirewallErrorCode, FirewallReason)>(
                    (FirewallErrorCode::CircuitBreakerOpen, FirewallReason::CircuitBreakerTripped),
                )
                &&& final(self)@ == old(self)@
            },
            breaker_allows(old(self)@.breaker, now_ms) && quarantined_in(
                old(self)@.proact.quarantine,
                region@,
                agent,
            ) ==> {
                &&& r matches Ok(t) && t@ == neutral_tensor()
                &&& final(self)@ == old(self)@
            },
            breaker_allows(old(self)@.breaker, now_ms) && !quarantined_in(
                old(self)@.proact.quarantine,
                region@,
                agent,
            ) && old(self)@.proact.honeypot.contains_key(agent) ==> {
                &&& r matches Ok(t) && t@ == neutral_tensor()
                &&& final(self)@ == FirewallView {
                    proact: ProActView {
                        sinkhole_count: (old(self)@.proact.sinkhole_count + 1) as u64,
                        ..old(self)@.proact
                    },
                    ..old(self)@
                }
            },
            breaker_allows(old(self)@.breaker, now_ms) && !quarantined_in(
                old(self)@.proact.quarantine,
                region@,
                agent,
            ) && !old(self)@.proact.honeypot.contains_key(agent) && !old(self)@.has_tee ==> {
                analysis_outcome(old(self)@, agent, region@, neutral_tensor(), now_ms, final(self)@, r)
            },
            breaker_allows(old(self)@.breaker, now_ms) && !quarantined_in(
                old(self)@.proact.quarantine,
                region@,
                agent,
            ) && !old(self)@.proact.honeypot.contains_key(agent) && old(self)@.has_tee ==> {
                ||| r matches Err((_, FirewallReason::TeeAttestationInvalid)) && final(self)@ == old(self)@
                ||| exists|e: Seq<i8>|
                    e.len() == EMBEDDING_DIM && #[trigger] analysis_outcome(
                        old(self)@,
                        agent,
                        region@,
                        e,
                        now_ms,
                        final(self)@,
                        r,
                    )
            },
    {
        proof {
            law_neutral_tensor_is_a_violation();
        }
        if !self.circuit_breaker.can_execute(now_ms) {
            return Err((FirewallErrorCode::CircuitBreakerOpen, FirewallReason::CircuitBreakerTripped));
        }
        if self.proact.is_quarantined(region, agent) {
            let t = [0i8; 768];
            assert(t@ =~= neutral_tensor());
            return Ok(t);
        }
        if self.proact.is_honeypot(agent) {
            let _ = self.proact.sinkhole_absorb();
            let t = [0i8; 768];
            assert(t@ =~= neutral_tensor());
            return Ok(t);
        }
        let embedding: IntentTensor = match &self.tee {
            Some(tee) => match tee.infer_secure(raw_input, &[0u8; 32]) {
                Ok(e) => e,
                Err(e) => {
                    return Err((e, FirewallReason::TeeAttestationInvalid));
                },
            },
            None => {
                let t = [0i8; 768];
                assert(t@ =~= neutral_tensor());
                t
            },
        };
        assert(self.tee.is_none() ==> embedding@ == neutral_tensor());
        let (verdict, _score, reason) = analyze_semantic_intent(&embedding);
        let r = match verdict {
            SemanticVerdict::Clean => {
                self.circuit_breaker.record_success();
                Ok(embedding)
            },
            SemanticVerdict::Suspicious => {
                self.circuit_breaker.record_failure(now_ms);
                Err((FirewallErrorCode::SemanticViolation, reason))
            },
            SemanticVerdict::Violation => {
                self.circuit_breaker.record_failure(now_ms);
                self.proact.silent_quarantine(region, agent, now_ms);
                Err((FirewallErrorCode::QuarantineTriggered, reason))
            },
            SemanticVerdict::Obfuscated => {
                self.circuit_breaker.record_failure(now_ms);
                self.proact.engage_honeypot(agent, now_ms);
                Err((FirewallErrorCode::HoneypotActivated, reason))
            },
        };
        assert(analysis_outcome(old(self)@, agent, region@, embedding@, now_ms, self@, r));
        r
    }

    /// Moves an open breaker to half-open once the window after the last
    /// failure has passed.
    pub fn tick_reset_circuit_breaker(&mut self, now_ms: u64)
        ensures
            final(self).wf() == old(self).wf(),
            final(self)@ == (if old(self)@.breaker.state == CircuitState::Open && saturating_diff(
                now_ms,
                old(self)@.breaker.last_failure_time_ms,
            ) >= old(self)@.breaker.window_ms {
                FirewallView {
                    breaker: BreakerView { state: CircuitState::HalfOpen, ..old(self)@.breaker },
                    ..old(self)@
                }
            } else {
                old(self)@
            }),
    {
        if self.circuit_breaker.state() == CircuitState::Open {
            if now_ms.saturating_sub(self.circuit_breaker.last_failure_time_ms)
                >= self.circuit_breaker.window_ms {
                self.circuit_breaker.transition_to_half_open();
            }
        }
    }
}

/// Without an enclave, an agent that reaches the analysis is quarantined in
/// its region, and every later intent of it in that region that the breaker
/// lets through is answered with the neutral tensor and changes nothing.
pub proof fn law_violation_leads_to_silent_quarantine(
    f: FirewallView,
    agent: AgentId,
    region: Seq<char>,
    now_ms: u64,
)
    requires
        !f.has_tee,
    ensures
        ({
            let (f2, res) = firewall_after_analysis(f, agent, region, neutral_tensor(), now_ms);
            &&& res == Err::<Seq<i8>, (FirewallErrorCode, FirewallReason)>(
                (FirewallErrorCode::QuarantineTriggered, FirewallReason::SafetyScoreBelowThreshold),
            )
            &&& quarantined_in(f2.proact.quarantine, region, agent)
            &&& f2.breaker == breaker_after_failure(f.breaker, now_ms)
        }),
{
    law_neutral_tensor_is_a_violation();
    law_quarantine_idempotent(f.proact.quarantine, region, agent);
}

} // verus!
