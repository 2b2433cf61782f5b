//! CreekGuard: detection of covert channels over Creek pub/sub — canary
//! tokens, blind near-duplicate fingerprints, rate limiting by novelty and
//! timing correlation between agents.
//!
//! The Shannon-entropy classification of a payload and the size class of a
//! fingerprint are computed in floating point by the caller and handed in.
use vstd::prelude::*;
use crate::assoc::{
    assoc_map, distinct_keys, ids16_equal, ids32_equal, lemma_assoc_absent, lemma_assoc_contains,
    lemma_assoc_index, lemma_assoc_insert_at, lemma_assoc_push, lemma_assoc_update, strs_equal,
};

verus! {

broadcast use vstd::array::group_array_axioms;

pub const MAX_PAYLOAD_SIZE: usize = 65_536;
pub const ENTROPY_WINDOW_SIZE: usize = 1_024;
pub const TIMING_CORRELATION_WINDOW_MS: u64 = 5_000;
/// Largest number of similar republications tolerated.
pub const SEMANTIC_NOVELTY_THRESHOLD: u32 = 3;
/// One canary every this many messages.
pub const CANARY_INJECTION_RATE: u32 = 100;

pub type AgentId = [u8; 32];
pub type TopicId = &'static str;
pub type PayloadHash = [u8; 32];

/// Error codes of CreekGuard, in the namespace 0x2140_8001 – 0x2140_80FF.
#[derive(Debug, Clone, Copy, PartialEq, Eq, Structural)]
pub enum CreekGuardErrorCode {
    EntropySuspiciouslyHigh,
    EntropySuspiciouslyLow,
    TimingCorrelationDetected,
    BurstPatternDetected,
    NearDuplicateDetected,
    WatermarkExfiltrated,
    SemanticNoveltyExceeded,
    RepetitivePayloadPattern,
    Unknown,
}

impl CreekGuardErrorCode {
    /// The numeric code of each variant.
    pub open spec fn code(self) -> u32 {
        match self {
            CreekGuardErrorCode::EntropySuspiciouslyHigh => 0x2140_8001,
            CreekGuardErrorCode::EntropySuspiciouslyLow => 0x2140_8002,
            CreekGuardErrorCode::TimingCorrelationDetected => 0x2140_8010,
            CreekGuardErrorCode::BurstPatternDetected => 0x2140_8011,
            CreekGuardErrorCode::NearDuplicateDetected => 0x2140_8020,
            CreekGuardErrorCode::WatermarkExfiltrated => 0x2140_8021,
            CreekGuardErrorCode::SemanticNoveltyExceeded => 0x2140_8030,
            CreekGuardErrorCode::RepetitivePayloadPattern => 0x2140_8031,
            CreekGuardErrorCode::Unknown => 0x2140_80F0,
        }
    }

    pub fn as_u32(self) -> (r: u32)
        ensures
            r == self.code(),
    {
        match self {
            CreekGuardErrorCode::EntropySuspiciouslyHigh => 0x2140_8001,
            CreekGuardErrorCode::EntropySuspiciouslyLow => 0x2140_8002,
            CreekGuardErrorCode::TimingCorrelationDetected => 0x2140_8010,
            CreekGuardErrorCode::BurstPatternDetected => 0x2140_8011,
            CreekGuardErrorCode::NearDuplicateDetected => 0x2140_8020,
            CreekGuardErrorCode::WatermarkExfiltrated => 0x2140_8021,
            CreekGuardErrorCode::SemanticNoveltyExceeded => 0x2140_8030,
            CreekGuardErrorCode::RepetitivePayloadPattern => 0x2140_8031,
            CreekGuardErrorCode::Unknown => 0x2140_80F0,
        }
    }
}

/// A message of the Creek protocol.
pub struct CreekMessage {
    pub agent_id: AgentId,
    pub topic: TopicId,
    pub payload: Vec<u8>,
    pub timestamp_ms: u64,
    pub sequence_num: u64,
}

/// Classification of a payload by its Shannon entropy (bits per byte).
#[derive(Debug, Clone, Copy, PartialEq, Eq, Structural)]
pub enum EntropyVerdict {
    /// Natural entropy: text, JSON and the like.
    Clean,
    /// Low entropy: binary data, padding.
    Structured,
    /// At the threshold: possible steganography.
    Suspicious,
    /// Near-maximal entropy: strong encryption.
    Encrypted,
}

// ---------------------------------------------------------------------------
// Canary tokens
// ---------------------------------------------------------------------------

/// A canary token injected into the pipeline.
#[derive(Clone, Copy)]
pub struct CanaryToken {
    pub id: [u8; 16],
    pub injected_at_ms: u64,
    pub topic: TopicId,
    pub expected_digest: [u8; 32],
}

/// The identifier of the canary injected at `now_ms`: the little-endian
/// bytes of the time, then eight zero bytes.
pub open spec fn canary_id(now_ms: u64) -> Seq<u8> {
    vstd::bytes::spec_u64_to_le_bytes_open(now_ms) + Seq::new(8, |i: int| 0u8)
}

/// The bytes of "CANARY_".
pub open spec fn canary_marker() -> Seq<u8> {
    seq![67u8, 65u8, 78u8, 65u8, 82u8, 89u8, 95u8]
}

/// The payload of a canary: the marker, the identifier, then zero padding
/// up to 256 bytes.
pub open spec fn canary_payload(id: Seq<u8>) -> Seq<u8> {
    canary_marker() + id + Seq::new(233, |i: int| 0u8)
}

/// 32-byte digest of a payload: byte `j` is the XOR of the payload bytes at
/// the positions congruent to `j` modulo 32.
pub open spec fn xor_digest(p: Seq<u8>) -> Seq<u8>
    decreases p.len(),
{
    if p.len() == 0 {
        Seq::new(32, |i: int| 0u8)
    } else {
        let h = xor_digest(p.drop_last());
        let j = (p.len() - 1) % 32;
        h.update(j, h[j] ^ p.last())
    }
}

proof fn lemma_xor_digest_len(p: Seq<u8>)
    ensures
        xor_digest(p).len() == 32,
    decreases p.len(),
{
    if p.len() > 0 {
        lemma_xor_digest_len(p.drop_last());
    }
}

/// Up to 32 bytes, the digest is the payload padded with zeros; beyond,
/// zero bytes leave it unchanged.
proof fn lemma_xor_digest_zero_tail(p: Seq<u8>)
    requires
        forall|i: int| 32 <= i < p.len() ==> p[i] == 0,
    ensures
        p.len() >= 32 ==> xor_digest(p) =~= p.subrange(0, 32),
        p.len() < 32 ==> xor_digest(p) =~= p + Seq::new((32 - p.len()) as nat, |i: int| 0u8),
    decreases p.len(),
{
    if p.len() > 0 {
        let q = p.drop_last();
        lemma_xor_digest_zero_tail(q);
        lemma_xor_digest_len(q);
        let h = xor_digest(q);
        let j = (p.len() - 1) % 32;
        let x = h[j];
        let y = p.last();
        if p.len() > 32 {
            assert(y == 0);
            assert(x ^ 0u8 == x) by (bit_vector);
            assert(q.subrange(0, 32) =~= p.subrange(0, 32));
        } else {
            assert(x == 0);
            assert(0u8 ^ y == y) by (bit_vector);
        }
    }
}

proof fn lemma_canary_digest(id: Seq<u8>)
    requires
        id.len() == 16,
    ensures
        xor_digest(canary_payload(id)).subrange(7, 23) =~= id,
        xor_digest(canary_payload(id)).len() == 32,
{
    let p = canary_payload(id);
    lemma_xor_digest_zero_tail(p);
    assert(p.subrange(7, 23) =~= id);
}

/// What a canary registry holds: the active canaries by identifier and the
/// number of exfiltrations detected.
pub struct CanaryRegistryView {
    pub active: Map<Seq<u8>, CanaryToken>,
    pub detected_count: u64,
}

/// Registry of active canaries; a canary that reappears in a payload has
/// been exfiltrated.
pub struct CanaryRegistry {
    active: Vec<([u8; 16], CanaryToken)>,
    detected_count: u64,
}

pub open spec fn canary_entries(s: Seq<([u8; 16], CanaryToken)>) -> Seq<(Seq<u8>, CanaryToken)> {
    s.map_values(|e: ([u8; 16], CanaryToken)| (e.0@, e.1))
}

/// Every active canary is keyed by its identifier and carries the digest of
/// its payload.
pub open spec fn canaries_consistent(active: Map<Seq<u8>, CanaryToken>) -> bool {
    forall|k: Seq<u8>|
        #[trigger] active.contains_key(k) ==> {
            &&& active[k].id@ == k
            &&& active[k].expected_digest@ == xor_digest(canary_payload(k))
        }
}

/// The identifier that a canary payload carries: bytes 7 to 22 of its
/// digest.
pub open spec fn exfiltrated_id(payload: Seq<u8>) -> Seq<u8> {
    xor_digest(payload).subrange(7, 23)
}

/// `payload` is the payload of an active canary: its digest is the one
/// recorded for the canary whose identifier it carries.
pub open spec fn canary_hit(reg: CanaryRegistryView, payload: Seq<u8>) -> bool {
    let k = exfiltrated_id(payload);
    reg.active.contains_key(k) && reg.active[k].expected_digest@ == xor_digest(payload)
}

impl View for CanaryRegistry {
    type V = CanaryRegistryView;

    closed spec fn view(&self) -> CanaryRegistryView {
        CanaryRegistryView {
            active: assoc_map(canary_entries(self.active@)),
            detected_count: self.detected_count,
        }
    }
}

fn xor_digest_exec(payload: &[u8]) -> (r: [u8; 32])
    ensures
        r@ == xor_digest(payload@),
{
    let mut hash = [0u8; 32];
    let mut i: usize = 0;
    assert(payload@.take(0) =~= Seq::<u8>::empty());
    assert(hash@ =~= xor_digest(Seq::<u8>::empty()));
    while i < payload.len()
        invariant
            0 <= i <= payload@.len(),
            hash@ == xor_digest(payload@.take(i as int)),
        decreases payload@.len() - i,
    {
        proof {
            lemma_xor_digest_len(payload@.take(i as int));
            assert(payload@.take(i as int + 1).drop_last() =~= payload@.take(i as int));
        }
        let j = i % 32;
        hash[j] = hash[j] ^ payload[i];
        i += 1;
    }
    assert(payload@.take(payload@.len() as int) =~= payload@);
    hash
}

impl CanaryRegistry {
    pub closed spec fn wf(&self) -> bool {
        &&& distinct_keys(canary_entries(self.active@))
        &&& canaries_consistent(self@.active)
    }

    pub fn new() -> (r: Self)
        ensures
            r.wf(),
            r@.active == Map::<Seq<u8>, CanaryToken>::empty(),
            r@.detected_count == 0,
    {
        let r = CanaryRegistry { active: Vec::new(), detected_count: 0 };
        assert(canary_entries(r.active@) =~= Seq::empty());
        r
    }

    fn generate_canary_id(&self, now_ms: u64) -> (r: [u8; 16])
        ensures
            r@ == canary_id(now_ms),
    {
        let mut id = [0u8; 16];
        id[0] = (now_ms & 0xff) as u8;
        id[1] = ((now_ms >> 8) & 0xff) as u8;
        id[2] = ((now_ms >> 16) & 0xff) as u8;
        id[3] = ((now_ms >> 24) & 0xff) as u8;
        id[4] = ((now_ms >> 32) & 0xff) as u8;
        id[5] = ((now_ms >> 40) & 0xff) as u8;
        id[6] = ((now_ms >> 48) & 0xff) as u8;
        id[7] = ((now_ms >> 56) & 0xff) as u8;
        assert(id@ =~= canary_id(now_ms));
        id
    }

    fn generate_canary_payload(&self, id: &[u8; 16]) -> (r: Vec<u8>)
        ensures
            r@ == canary_payload(id@),
    {
        let mut payload: Vec<u8> = Vec::new();
        payload.push(67u8);
        payload.push(65u8);
        payload.push(78u8);
        payload.push(65u8);
        payload.push(82u8);
        payload.push(89u8);
        payload.push(95u8);
        let mut k: usize = 0;
        while k < 16
            invariant
                0 <= k <= 16,
                payload@ =~= canary_marker() + id@.take(k as int),
            decreases 16 - k,
        {
            payload.push(id[k]);
            k += 1;
            assert(id@.take(k as int) =~= id@.take(k - 1).push(id@[k - 1]));
        }
        let mut z: usize = 0;
        while z < 233
            invariant
                0 <= z <= 233,
                payload@ =~= canary_marker() + id@ + Seq::new(z as nat, |i: int| 0u8),
            decreases 233 - z,
        {
            payload.push(0u8);
            z += 1;
        }
        payload
    }

    fn hash_payload(&self, payload: &[u8]) -> (r: [u8; 32])
        ensures
            r@ == xor_digest(payload@),
    {
        xor_digest_exec(payload)
    }

    fn find(&self, id: &[u8; 16]) -> (r: Option<usize>)
        ensures
            match r {
                Some(i) => i < self.active@.len() && self.active@[i as int].0 == *id,
                None => forall|i: int| 0 <= i < self.active@.len() ==> self.active@[i].0 != *id,
            },
    {
        let mut i: usize = 0;
        while i < self.active.len()
            invariant
                0 <= i <= self.active@.len(),
                forall|k: int| 0 <= k < i ==> self.active@[k].0 != *id,
            decreases self.active@.len() - i,
        {
            if ids16_equal(&self.active[i].0, id) {
                return Some(i);
            }
            i += 1;
        }
        None
    }

    /// Injects a canary for `topic` at `now_ms` and returns its payload; a
    /// canary injected earlier at the same time is replaced.
    pub fn inject_canary(&mut self, topic: TopicId, now_ms: u64) -> (r: Vec<u8>)
        requires
            old(self).wf(),
        ensures
            final(self).wf(),
            r@ == canary_payload(canary_id(now_ms)),
            final(self)@.active == old(self)@.active.insert(
                canary_id(now_ms),
                final(self)@.active[canary_id(now_ms)],
            ),
            final(self)@.active[canary_id(now_ms)].injected_at_ms == now_ms,
            final(self)@.active[canary_id(now_ms)].topic == topic,
            final(self)@.detected_count == old(self)@.detected_count,
    {
        let id = self.generate_canary_id(now_ms);
        let payload = self.generate_canary_payload(&id);
        let expected_digest = self.hash_payload(&payload);
        let token = CanaryToken { id, injected_at_ms: now_ms, topic, expected_digest };
        let ghost old_entries = canary_entries(self.active@);
        match self.find(&id) {
            Some(i) => {
                self.active.set(i, (id, token));
                proof {
                    assert(old_entries[i as int].0 == id@);
                    assert(canary_entries(self.active@) =~= old_entries.update(i as int, (id@, token)));
                    lemma_assoc_update(old_entries, i as int, token);
                }
            },
            None => {
                self.active.push((id, token));
                proof {
                    assert forall|k: int| 0 <= k < old_entries.len() implies old_entries[k].0 != id@ by {
                        assert(old_entries[k].0 == old(self).active@[k].0@);
                        if old_entries[k].0 == id@ {
                            assert(old(self).active@[k].0 =~= id);
                        }
                    }
                    assert(canary_entries(self.active@) =~= old_entries.push((id@, token)));
                    lemma_assoc_push(old_entries, id@, token);
                }
            },
        }
        payload
    }

    /// Checks whether `payload` is an exfiltrated canary; on a hit the
    /// detection is counted.
    pub fn detect_exfiltration(&mut self, payload: &[u8]) -> (r: Option<&CanaryToken>)
        requires
            old(self).wf(),
            old(self)@.detected_count < u64::MAX,
        ensures
            final(self).wf(),
            final(self)@.active == old(self)@.active,
            canary_hit(old(self)@, payload@) ==> r == Some(
                &old(self)@.active[exfiltrated_id(payload@)],
            ),
            !canary_hit(old(self)@, payload@) ==> r.is_none(),
            final(self)@.detected_count == old(self)@.detected_count + (if canary_hit(
                old(self)@,
                payload@,
            ) {
                1int
            } else {
                0int
            }),
    {
        let digest = self.hash_payload(payload);
        let ghost d = digest@;
        let ghost k = d.subrange(7, 23);
        let ghost entries = canary_entries(self.active@);
        proof {
            lemma_xor_digest_len(payload@);
        }
        let mut i: usize = 0;
        while i < self.active.len()
            invariant
                0 <= i <= self.active@.len(),
                entries == canary_entries(self.active@),
                distinct_keys(entries),
                canaries_consistent(assoc_map(entries)),
                d.len() == 32,
                d == digest@,
                d == xor_digest(payload@),
                k == d.subrange(7, 23),
                self.active@ == old(self).active@,
                self.detected_count == old(self).detected_count,
                self.detected_count < u64::MAX,
                forall|j: int| 0 <= j < i ==> self.active@[j].1.expected_digest@ != d,
            decreases self.active@.len() - i,
        {
            if ids32_equal(&digest, &self.active[i].1.expected_digest) {
                proof {
                    lemma_assoc_index(entries, i as int);
                    let key = entries[i as int].0;
                    assert(entries[i as int] == (self.active@[i as int].0@, self.active@[i as int].1));
                    assert(assoc_map(entries).contains_key(key));
                    assert(assoc_map(entries)[key].expected_digest@ == xor_digest(canary_payload(key)));
                    assert(key.len() == 16);
                    lemma_canary_digest(key);
                    assert(digest == self.active@[i as int].1.expected_digest);
                    assert(d == xor_digest(canary_payload(key)));
                    assert(key =~= k);
                    assert(assoc_map(entries)[k] == self.active@[i as int].1);
                    assert(old(self)@.active == assoc_map(entries));
                    assert(old(self)@.active.contains_key(xor_digest(payload@).subrange(7, 23)));
                    assert(old(self)@.active[xor_digest(payload@).subrange(7, 23)].expected_digest@
                        == xor_digest(payload@));
                }
                self.detected_count += 1;
                return Some(&self.active[i].1);
            }
            proof {
                if self.active@[i as int].1.expected_digest@ == d {
                    assert(self.active@[i as int].1.expected_digest =~= digest);
                }
            }
            i += 1;
        }
        proof {
            if assoc_map(entries).contains_key(k) {
                lemma_assoc_contains(entries, k);
                let j = choose|j: int| 0 <= j < entries.len() && entries[j].0 == k;
                lemma_assoc_index(entries, j);
                assert(entries[j] == (self.active@[j].0@, self.active@[j].1));
            }
        }
        None
    }

    pub fn detected_count(&self) -> (r: u64)
        ensures
            r == self@.detected_count,
    {
        self.detected_count
    }

    /// Number of active canaries.
    pub fn active_count(&self) -> (r: usize)
        requires
            self.wf(),
        ensures
            r == self@.active.len(),
    {
        proof {
            lemma_assoc_len(canary_entries(self.active@));
        }
        self.active.len()
    }

    /// The active canaries are finitely many.
    pub proof fn lemma_active_finite(&self)
        ensures
            self@.active.dom().finite(),
    {
        lemma_assoc_finite(canary_entries(self.active@));
    }

    /// What a well-formed registry promises its callers: every active
    /// canary is keyed by its identifier and carries its payload's digest.
    pub proof fn lemma_wf_consistent(&self)
        requires
            self.wf(),
        ensures
            canaries_consistent(self@.active),
    {
    }
}

/// The map of a list of pairs is finite.
proof fn lemma_assoc_finite<K, V>(s: Seq<(K, V)>)
    ensures
        assoc_map(s).dom().finite(),
    decreases s.len(),
{
    if s.len() > 0 {
        lemma_assoc_finite(s.drop_last());
    }
}

/// With distinct keys, the map has as many entries as the list.
proof fn lemma_assoc_len<K, V>(s: Seq<(K, V)>)
    requires
        distinct_keys(s),
    ensures
        assoc_map(s).dom().finite(),
        assoc_map(s).len() == s.len(),
    decreases s.len(),
{
    if s.len() > 0 {
        assert(distinct_keys(s.drop_last()));
        lemma_assoc_len(s.drop_last());
        assert forall|i: int| 0 <= i < s.drop_last().len() implies s.drop_last()[i].0 != s.last().0 by {
            assert(s.drop_last()[i] == s[i]);
        }
        lemma_assoc_absent(s.drop_last(), s.last().0);
    }
}

/// A canary, once injected, is detected when its payload comes back.
pub proof fn law_injected_canary_is_detected(
    before: CanaryRegistry,
    after: CanaryRegistry,
    now_ms: u64,
)
    requires
        after.wf(),
        after@.active == before@.active.insert(canary_id(now_ms), after@.active[canary_id(now_ms)]),
    ensures
        canary_hit(after@, canary_payload(canary_id(now_ms))),
        exfiltrated_id(canary_payload(canary_id(now_ms))) == canary_id(now_ms),
{
    lemma_canary_digest(canary_id(now_ms));
    assert(after@.active.contains_key(canary_id(now_ms)));
}


// ---------------------------------------------------------------------------
// Blind near-duplicate fingerprints
// ---------------------------------------------------------------------------

/// FNV-1a offset basis.
pub const FNV_OFFSET_BASIS: u64 = 0xcbf29ce484222325;
/// FNV prime.
pub const FNV_PRIME: u64 = 0x100000001b3;

/// Fingerprint of a payload, sensitive to small changes.
#[derive(Clone, Copy)]
pub struct BlindFingerprint {
    pub simhash: u64,
    pub minhash: [u64; 4],
    pub size_class: u8,
}

/// The little-endian word made of the first `n` bytes of `s` (at most
/// eight): each byte shifted into its place and OR-ed in.
pub open spec fn le_word(s: Seq<u8>, n: int) -> u64
    decreases n,
{
    if n <= 0 {
        0
    } else {
        le_word(s, n - 1) | ((s[n - 1] as u64) << ((8 * (n - 1)) as u64))
    }
}

/// The `c`-th chunk of eight bytes of `p` (the last one may be shorter).
pub open spec fn chunk_of(p: Seq<u8>, c: int) -> Seq<u8> {
    p.subrange(8 * c, if 8 * c + 8 <= p.len() { 8 * c + 8 } else { p.len() as int })
}

/// Number of chunks of eight bytes in `p`.
pub open spec fn num_chunks(p: Seq<u8>) -> nat {
    ((p.len() + 7) / 8) as nat
}

/// XOR of the words of the first `c` chunks of `p`.
pub open spec fn simhash_upto(p: Seq<u8>, c: nat) -> u64
    decreases c,
{
    if c == 0 {
        0
    } else {
        let ch = chunk_of(p, c - 1);
        simhash_upto(p, (c - 1) as nat) ^ le_word(ch, ch.len() as int)
    }
}

/// SimHash of a payload: XOR of its little-endian 8-byte chunks.
pub open spec fn simhash_of(p: Seq<u8>) -> u64 {
    simhash_upto(p, num_chunks(p))
}

/// FNV-1a hash of the payload with every byte XOR-ed with `seed`.
pub open spec fn fnv_seeded(p: Seq<u8>, seed: u8) -> u64
    decreases p.len(),
{
    if p.len() == 0 {
        FNV_OFFSET_BASIS
    } else {
        vstd::wrapping::u64_specs::wrapping_mul(
            fnv_seeded(p.drop_last(), seed) ^ ((p.last() ^ seed) as u64),
            FNV_PRIME,
        )
    }
}

/// The fingerprint of a payload whose size class is `size_class`.
pub open spec fn fingerprint_of(p: Seq<u8>, size_class: u8) -> BlindFingerprint {
    BlindFingerprint {
        simhash: simhash_of(p),
        minhash: [fnv_seeded(p, 0), fnv_seeded(p, 1), fnv_seeded(p, 2), fnv_seeded(p, 3)],
        size_class,
    }
}

/// Number of bits set in `x`.
pub open spec fn popcount(x: u64) -> nat
    decreases x,
{
    if x == 0 {
        0
    } else {
        (x % 2) as nat + popcount(x / 2)
    }
}

/// Number of positions at which the minhash values agree.
pub open spec fn minhash_matches(a: BlindFingerprint, b: BlindFingerprint) -> int {
    (if a.minhash[0] == b.minhash[0] { 1int } else { 0int }) + (if a.minhash[1] == b.minhash[1] {
        1int
    } else {
        0int
    }) + (if a.minhash[2] == b.minhash[2] { 1int } else { 0int }) + (if a.minhash[3]
        == b.minhash[3] {
        1int
    } else {
        0int
    })
}

/// Similarity of two fingerprints in 128ths: zero across size classes,
/// else the mean of the SimHash agreement (bits equal out of 64) and of the
/// MinHash agreement (values equal out of 4).
pub open spec fn similarity_128ths(a: BlindFingerprint, b: BlindFingerprint) -> int {
    if a.size_class != b.size_class {
        0
    } else {
        (64 - popcount(a.simhash ^ b.simhash)) + 16 * minhash_matches(a, b)
    }
}

/// Two fingerprints are similar when their similarity exceeds 0.95: the
/// threshold `0.95f32` lies between 121/128 and 122/128.
pub open spec fn similar(a: BlindFingerprint, b: BlindFingerprint) -> bool {
    similarity_128ths(a, b) >= 122
}

/// Number of fingerprints of `list` similar to `fp`.
pub open spec fn count_similar(list: Seq<BlindFingerprint>, fp: BlindFingerprint) -> nat
    decreases list.len(),
{
    if list.len() == 0 {
        0
    } else {
        count_similar(list.drop_last(), fp) + (if similar(fp, list.last()) {
            1nat
        } else {
            0nat
        })
    }
}

fn popcount_exec(x: u64) -> (r: u32)
    ensures
        r == popcount(x),
        r <= 64,
{
    let mut y = x;
    let mut c: u32 = 0;
    proof {
        lemma_popcount_bound(x);
    }
    while y != 0
        invariant
            c + popcount(y) == popcount(x),
            popcount(x) <= 64,
        decreases y,
    {
        c = c + (y % 2) as u32;
        y = y / 2;
    }
    c
}

proof fn lemma_popcount_bits(x: u64, k: nat)
    requires
        x < vstd::arithmetic::power2::pow2(k),
    ensures
        popcount(x) <= k,
    decreases k,
{
    if x != 0 {
        if k == 0 {
            vstd::arithmetic::power2::lemma2_to64();
        } else {
            vstd::arithmetic::power2::lemma_pow2_unfold(k);
            lemma_popcount_bits(x / 2, (k - 1) as nat);
        }
    }
}

proof fn lemma_popcount_bound(x: u64)
    ensures
        popcount(x) <= 64,
{
    vstd::arithmetic::power2::lemma2_to64();
    lemma_popcount_bits(x, 64);
}

fn fnv_seeded_exec(payload: &[u8], seed: u8) -> (r: u64)
    ensures
        r == fnv_seeded(payload@, seed),
{
    let mut hash: u64 = FNV_OFFSET_BASIS;
    let mut i: usize = 0;
    assert(payload@.take(0) =~= Seq::<u8>::empty());
    while i < payload.len()
        invariant
            0 <= i <= payload@.len(),
            hash == fnv_seeded(payload@.take(i as int), seed),
        decreases payload@.len() - i,
    {
        assert(payload@.take(i as int + 1).drop_last() =~= payload@.take(i as int));
        hash = hash ^ ((payload[i] ^ seed) as u64);
        hash = hash.wrapping_mul(FNV_PRIME);
        i += 1;
    }
    assert(payload@.take(payload@.len() as int) =~= payload@);
    hash
}

fn le_word_exec(payload: &[u8], start: usize, end: usize) -> (r: u64)
    requires
        start <= end <= payload@.len(),
        end - start <= 8,
    ensures
        r == le_word(payload@.subrange(start as int, end as int), end - start),
{
    let ghost ch = payload@.subrange(start as int, end as int);
    let mut w: u64 = 0;
    let mut i: usize = 0;
    while i < end - start
        invariant
            start <= end <= payload@.len(),
            end - start <= 8,
            ch == payload@.subrange(start as int, end as int),
            0 <= i <= end - start,
            w == le_word(ch, i as int),
        decreases end - start - i,
    {
        let sh: u64 = (i * 8) as u64;
        w = w | ((payload[start + i] as u64) << sh);
        i += 1;
    }
    w
}

fn simhash_exec(payload: &[u8]) -> (r: u64)
    ensures
        r == simhash_of(payload@),
{
    let n = payload.len();
    let mut h: u64 = 0;
    let mut start: usize = 0;
    let ghost mut c: nat = 0;
    while start < n
        invariant
            n == payload@.len(),
            start <= n,
            c <= num_chunks(payload@),
            start == (if 8 * c <= n { (8 * c) as int } else { n as int }),
            start < n ==> 8 * c < n,
            start == n ==> c == num_chunks(payload@),
            h == simhash_upto(payload@, c),
        decreases n - start,
    {
        let end = if n - start >= 8 { start + 8 } else { n };
        let w = le_word_exec(payload, start, end);
        assert(chunk_of(payload@, c as int) == payload@.subrange(start as int, end as int));
        h = h ^ w;
        start = end;
        proof {
            c = c + 1;
        }
    }
    h
}

fn similarity_at_least_threshold(a: &BlindFingerprint, b: &BlindFingerprint) -> (r: bool)
    ensures
        r == similar(*a, *b),
{
    if a.size_class != b.size_class {
        return false;
    }
    let bits = popcount_exec(a.simhash ^ b.simhash);
    let mut matches: u32 = 0;
    let mut i: usize = 0;
    while i < 4
        invariant
            0 <= i <= 4,
            matches == (if i > 0 && a.minhash[0] == b.minhash[0] { 1int } else { 0int }) + (if i
                > 1 && a.minhash[1] == b.minhash[1] {
                1int
            } else {
                0int
            }) + (if i > 2 && a.minhash[2] == b.minhash[2] { 1int } else { 0int }) + (if i > 3
                && a.minhash[3] == b.minhash[3] {
                1int
            } else {
                0int
            }),
        decreases 4 - i,
    {
        if a.minhash[i] == b.minhash[i] {
            matches += 1;
        }
        i += 1;
    }
    (64 - bits) + 16 * matches >= 122
}

/// What a fingerprint registry holds: the fingerprints kept per topic and
/// the number of similar ones that makes a duplicate.
pub struct FingerprintRegistryView {
    pub fingerprints: Map<Seq<char>, Seq<BlindFingerprint>>,
    pub duplicate_threshold: u32,
}

/// Registry of fingerprints per topic; detects republication with subtle
/// modification.
pub struct FingerprintRegistry {
    fingerprints: Vec<(TopicId, Vec<BlindFingerprint>)>,
    duplicate_threshold: u32,
}

pub open spec fn fingerprint_entries(s: Seq<(TopicId, Vec<BlindFingerprint>)>) -> Seq<
    (Seq<char>, Seq<BlindFingerprint>),
> {
    s.map_values(|e: (TopicId, Vec<BlindFingerprint>)| (e.0@, e.1@))
}

/// The fingerprints kept for `topic`, none if the topic was never seen.
pub open spec fn kept_for(m: Map<Seq<char>, Seq<BlindFingerprint>>, topic: Seq<char>) -> Seq<
    BlindFingerprint,
> {
    if m.contains_key(topic) {
        m[topic]
    } else {
        Seq::empty()
    }
}

impl View for FingerprintRegistry {
    type V = FingerprintRegistryView;

    closed spec fn view(&self) -> FingerprintRegistryView {
        FingerprintRegistryView {
            fingerprints: assoc_map(fingerprint_entries(self.fingerprints@)),
            duplicate_threshold: self.duplicate_threshold,
        }
    }
}

impl FingerprintRegistry {
    pub closed spec fn wf(&self) -> bool {
        distinct_keys(fingerprint_entries(self.fingerprints@))
    }

    pub fn new(threshold: u32) -> (r: Self)
        ensures
            r.wf(),
            r@.fingerprints == Map::<Seq<char>, Seq<BlindFingerprint>>::empty(),
            r@.duplicate_threshold == threshold,
    {
        let r = FingerprintRegistry { fingerprints: Vec::new(), duplicate_threshold: threshold };
        assert(fingerprint_entries(r.fingerprints@) =~= Seq::empty());
        r
    }

    /// The blind fingerprint of `payload`; `size_class` is the integer part
    /// of the binary logarithm of its length, computed by the caller.
    pub fn compute_fingerprint(payload: &[u8], size_class: u8) -> (r: BlindFingerprint)
        ensures
            r == fingerprint_of(payload@, size_class),
    {
        let simhash = simhash_exec(payload);
        let m0 = fnv_seeded_exec(payload, 0);
        let m1 = fnv_seeded_exec(payload, 1);
        let m2 = fnv_seeded_exec(payload, 2);
        let m3 = fnv_seeded_exec(payload, 3);
        let r = BlindFingerprint { simhash, minhash: [m0, m1, m2, m3], size_class };
        assert(r.minhash =~= fingerprint_of(payload@, size_class).minhash);
        r
    }

    fn find(&self, topic: TopicId) -> (r: Option<usize>)
        ensures
            match r {
                Some(i) => i < self.fingerprints@.len() && self.fingerprints@[i as int].0@ == topic@,
                None => forall|i: int|
                    0 <= i < self.fingerprints@.len() ==> self.fingerprints@[i].0@ != topic@,
            },
    {
        let mut i: usize = 0;
        while i < self.fingerprints.len()
            invariant
                0 <= i <= self.fingerprints@.len(),
                forall|k: int| 0 <= k < i ==> self.fingerprints@[k].0@ != topic@,
            decreases self.fingerprints@.len() - i,
        {
            if strs_equal(self.fingerprints[i].0, topic) {
                return Some(i);
            }
            i += 1;
        }
        None
    }

    /// Number of fingerprints kept for `topic`.
    pub fn kept_count(&self, topic: TopicId) -> (r: usize)
        requires
            self.wf(),
        ensures
            r == kept_for(self@.fingerprints, topic@).len(),
    {
        let ghost entries = fingerprint_entries(self.fingerprints@);
        match self.find(topic) {
            Some(i) => {
                proof {
                    assert(entries[i as int].0 == topic@);
                    lemma_assoc_index(entries, i as int);
                }
                self.fingerprints[i].1.len()
            },
            None => {
                proof {
                    assert forall|k: int| 0 <= k < entries.len() implies entries[k].0 != topic@ by {
                        assert(entries[k].0 == self.fingerprints@[k].0@);
                    }
                    lemma_assoc_absent(entries, topic@);
                }
                0
            },
        }
    }

    /// Counts the kept fingerprints of `topic` similar to `fingerprint`;
    /// the payload is a duplicate when that count reaches the threshold, and
    /// is kept otherwise.
    pub fn check_near_duplicate(&mut self, topic: TopicId, fingerprint: &BlindFingerprint) -> (r: (
        bool,
        u32,
    ))
        requires
            old(self).wf(),
            kept_for(old(self)@.fingerprints, topic@).len() <= u32::MAX,
        ensures
            final(self).wf(),
            ({
                let kept = kept_for(old(self)@.fingerprints, topic@);
                let count = count_similar(kept, *fingerprint);
                &&& r.1 == count
                &&& r.0 == (count >= old(self)@.duplicate_threshold)
                &&& final(self)@.fingerprints == old(self)@.fingerprints.insert(
                    topic@,
                    if r.0 {
                        kept
                    } else {
                        kept.push(*fingerprint)
                    },
                )
                &&& final(self)@.duplicate_threshold == old(self)@.duplicate_threshold
            }),
    {
        let ghost old_entries = fingerprint_entries(self.fingerprints@);
        let ghost kept = kept_for(old(self)@.fingerprints, topic@);
        let idx = match self.find(topic) {
            Some(i) => {
                proof {
                    lemma_assoc_index(old_entries, i as int);
                }
                i
            },
            None => {
                self.fingerprints.push((topic, Vec::new()));
                proof {
                    lemma_assoc_absent(old_entries, topic@);
                    lemma_assoc_push(old_entries, topic@, Seq::<BlindFingerprint>::empty());
                    assert(fingerprint_entries(self.fingerprints@) =~= old_entries.push(
                        (topic@, Seq::<BlindFingerprint>::empty()),
                    ));
                }
                self.fingerprints.len() - 1
            },
        };
        let ghost mid_entries = fingerprint_entries(self.fingerprints@);
        assert(self.fingerprints@[idx as int].1@ == kept);
        let (t, mut list) = self.fingerprints.remove(idx);
        let mut similar_count: u32 = 0;
        let mut i: usize = 0;
        assert(list@.take(0) =~= Seq::<BlindFingerprint>::empty());
        while i < list.len()
            invariant
                list@ == kept,
                kept.len() <= u32::MAX,
                0 <= i <= list@.len(),
                similar_count == count_similar(list@.take(i as int), *fingerprint),
                similar_count <= i,
            decreases list@.len() - i,
        {
            assert(list@.take(i as int + 1).drop_last() =~= list@.take(i as int));
            if similarity_at_least_threshold(fingerprint, &list[i]) {
                similar_count += 1;
            }
            i += 1;
        }
        assert(list@.take(list@.len() as int) =~= list@);
        let is_duplicate = similar_count >= self.duplicate_threshold;
        if !is_duplicate {
            list.push(*fingerprint);
        }
        self.fingerprints.insert(idx, (t, list));
        proof {
            assert(fingerprint_entries(self.fingerprints@) =~= mid_entries.update(
                idx as int,
                (topic@, list@),
            ));
            lemma_assoc_update(mid_entries, idx as int, list@);
        }
        (is_duplicate, similar_count)
    }
}

// ---------------------------------------------------------------------------
// Rate limiting by novelty
// ---------------------------------------------------------------------------

/// What a semantic rate limiter holds: the similar republications counted
/// per agent and topic, the limit, and the window it was made with.
pub struct SemanticRateLimiterView {
    pub violations: Map<(Seq<u8>, Seq<char>), u32>,
    pub threshold: u32,
    pub window_ms: u64,
}

/// Rate limiter by informational novelty rather than by volume: any number
/// of genuinely new messages passes, similar republications are counted.
pub struct SemanticRateLimiter {
    agent_violations: Vec<((AgentId, TopicId), u32)>,
    threshold: u32,
    window_ms: u64,
}

pub open spec fn violation_entries(s: Seq<((AgentId, TopicId), u32)>) -> Seq<
    ((Seq<u8>, Seq<char>), u32),
> {
    s.map_values(|e: ((AgentId, TopicId), u32)| ((e.0.0@, e.0.1@), e.1))
}

/// The count of similar republications of `agent` on `topic`, zero if none.
pub open spec fn violations_of(
    m: Map<(Seq<u8>, Seq<char>), u32>,
    agent: Seq<u8>,
    topic: Seq<char>,
) -> u32 {
    if m.contains_key((agent, topic)) {
        m[(agent, topic)]
    } else {
        0
    }
}

impl View for SemanticRateLimiter {
    type V = SemanticRateLimiterView;

    closed spec fn view(&self) -> SemanticRateLimiterView {
        SemanticRateLimiterView {
            violations: assoc_map(violation_entries(self.agent_violations@)),
            threshold: self.threshold,
            window_ms: self.window_ms,
        }
    }
}

impl SemanticRateLimiter {
    pub closed spec fn wf(&self) -> bool {
        distinct_keys(violation_entries(self.agent_violations@))
    }

    pub fn new(threshold: u32, window_ms: u64) -> (r: Self)
        ensures
            r.wf(),
            r@.violations == Map::<(Seq<u8>, Seq<char>), u32>::empty(),
            r@.threshold == threshold,
            r@.window_ms == window_ms,
    {
        let r = SemanticRateLimiter { agent_violations: Vec::new(), threshold, window_ms };
        assert(violation_entries(r.agent_violations@) =~= Seq::empty());
        r
    }

    fn find(&self, agent: &AgentId, topic: TopicId) -> (r: Option<usize>)
        ensures
            match r {
                Some(i) => i < self.agent_violations@.len() && self.agent_violations@[i as int].0.0
                    == *agent && self.agent_violations@[i as int].0.1@ == topic@,
                None => forall|i: int|
                    0 <= i < self.agent_violations@.len() ==> !(self.agent_violations@[i].0.0@
                        == agent@ && self.agent_violations@[i].0.1@ == topic@),
            },
    {
        let mut i: usize = 0;
        while i < self.agent_violations.len()
            invariant
                0 <= i <= self.agent_violations@.len(),
                forall|k: int|
                    0 <= k < i ==> !(self.agent_violations@[k].0.0@ == agent@
                        && self.agent_violations@[k].0.1@ == topic@),
            decreases self.agent_violations@.len() - i,
        {
            if ids32_equal(&self.agent_violations[i].0.0, agent) && strs_equal(
                self.agent_violations[i].0.1,
                topic,
            ) {
                return Some(i);
            }
            proof {
                if self.agent_violations@[i as int].0.0@ == agent@ {
                    assert(self.agent_violations@[i as int].0.0 =~= *agent);
                }
            }
            i += 1;
        }
        None
    }

    /// Records a publication. New content always passes and is not
    /// counted; a duplicate is counted and passes while its count stays
    /// under the threshold.
    pub fn record_publication(
        &mut self,
        agent: AgentId,
        topic: TopicId,
        is_duplicate: bool,
        now_ms: u64,
    ) -> (r: bool)
        requires
            old(self).wf(),
            is_duplicate ==> violations_of(old(self)@.violations, agent@, topic@) < u32::MAX,
        ensures
            final(self).wf(),
            final(self)@.threshold == old(self)@.threshold,
            final(self)@.window_ms == old(self)@.window_ms,
            !is_duplicate ==> r && final(self)@.violations == old(self)@.violations,
            is_duplicate ==> {
                let c = violations_of(old(self)@.violations, agent@, topic@) + 1;
                &&& final(self)@.violations == old(self)@.violations.insert(
                    (agent@, topic@),
                    c as u32,
                )
                &&& r == (c < old(self)@.threshold)
            },
    {
        if !is_duplicate {
            return true;
        }
        let ghost old_entries = violation_entries(self.agent_violations@);
        let count: u32;
        match self.find(&agent, topic) {
            Some(i) => {
                proof {
                    lemma_assoc_index(old_entries, i as int);
                }
                let key = self.agent_violations[i].0;
                count = self.agent_violations[i].1 + 1;
                self.agent_violations.set(i, (key, count));
                proof {
                    assert(violation_entries(self.agent_violations@) =~= old_entries.update(
                        i as int,
                        (old_entries[i as int].0, count),
                    ));
                    lemma_assoc_update(old_entries, i as int, count);
                }
            },
            None => {
                proof {
                    lemma_assoc_absent(old_entries, (agent@, topic@));
                }
                count = 1;
                self.agent_violations.push(((agent, topic), count));
                proof {
                    assert(violation_entries(self.agent_violations@) =~= old_entries.push(
                        ((agent@, topic@), count),
                    ));
                    lemma_assoc_push(old_entries, (agent@, topic@), count);
                }
            },
        }
        count < self.threshold
    }

    /// Number of similar republications counted for `agent` on `topic`.
    pub fn violation_count(&self, agent: AgentId, topic: TopicId) -> (r: u32)
        requires
            self.wf(),
        ensures
            r == violations_of(self@.violations, agent@, topic@),
    {
        let ghost entries = violation_entries(self.agent_violations@);
        match self.find(&agent, topic) {
            Some(i) => {
                proof {
                    lemma_assoc_index(entries, i as int);
                }
                self.agent_violations[i].1
            },
            None => {
                proof {
                    lemma_assoc_absent(entries, (agent@, topic@));
                }
                0
            },
        }
    }
}

// ---------------------------------------------------------------------------
// Timing correlation
// ---------------------------------------------------------------------------

/// Lexicographic order on byte strings, the order of agent identifiers.
pub open spec fn lex_lt(a: Seq<u8>, b: Seq<u8>) -> bool
    decreases a.len(),
{
    if a.len() == 0 || b.len() == 0 {
        a.len() < b.len()
    } else if a[0] != b[0] {
        a[0] < b[0]
    } else {
        lex_lt(a.drop_first(), b.drop_first())
    }
}

proof fn lemma_lex_irreflexive(a: Seq<u8>)
    ensures
        !lex_lt(a, a),
    decreases a.len(),
{
    if a.len() > 0 {
        lemma_lex_irreflexive(a.drop_first());
    }
}

proof fn lemma_lex_total(a: Seq<u8>, b: Seq<u8>)
    requires
        a.len() == b.len(),
        a != b,
    ensures
        lex_lt(a, b) || lex_lt(b, a),
    decreases a.len(),
{
    if a.len() > 0 && a[0] == b[0] {
        if a.drop_first() == b.drop_first() {
            assert(a =~= seq![a[0]] + a.drop_first());
            assert(b =~= seq![b[0]] + b.drop_first());
        }
        lemma_lex_total(a.drop_first(), b.drop_first());
    } else if a.len() == 0 {
        assert(a =~= b);
    }
}

proof fn lemma_lex_transitive(a: Seq<u8>, b: Seq<u8>, c: Seq<u8>)
    requires
        lex_lt(a, b),
        lex_lt(b, c),
    ensures
        lex_lt(a, c),
    decreases a.len(),
{
    if a.len() > 0 && b.len() > 0 && c.len() > 0 && a[0] == b[0] && b[0] == c[0] {
        lemma_lex_transitive(a.drop_first(), b.drop_first(), c.drop_first());
    }
}

/// Two lists of timestamp entries with strictly increasing keys that
/// denote the same map are the same list: the engine's agent list is
/// determined by its map.
pub proof fn law_sorted_entries_determined(s1: Seq<(Seq<u8>, Seq<u64>)>, s2: Seq<(Seq<u8>, Seq<u64>)>)
    requires
        sorted_keys(s1),
        sorted_keys(s2),
        distinct_keys(s1),
        distinct_keys(s2),
        assoc_map(s1) == assoc_map(s2),
    ensures
        s1 == s2,
    decreases s1.len() + s2.len(),
{
    if s1.len() == 0 && s2.len() == 0 {
        assert(s1 =~= s2);
    } else if s1.len() == 0 {
        lemma_assoc_index(s2, s2.len() - 1);
    } else if s2.len() == 0 {
        lemma_assoc_index(s1, s1.len() - 1);
    } else {
        let n1 = s1.len() - 1;
        let n2 = s2.len() - 1;
        let k1 = s1[n1].0;
        let k2 = s2[n2].0;
        lemma_assoc_index(s1, n1);
        lemma_assoc_index(s2, n2);
        lemma_assoc_contains(s2, k1);
        lemma_assoc_contains(s1, k2);
        if k1 != k2 {
            let j = choose|j: int| 0 <= j < s2.len() && s2[j].0 == k1;
            let i = choose|i: int| 0 <= i < s1.len() && s1[i].0 == k2;
            assert(lex_lt(s2[j].0, s2[n2].0));
            assert(lex_lt(s1[i].0, s1[n1].0));
            lemma_lex_transitive(k1, k2, k1);
            lemma_lex_irreflexive(k1);
        }
        let d1 = s1.drop_last();
        let d2 = s2.drop_last();
        assert forall|i: int| 0 <= i < d1.len() implies d1[i].0 != k1 by {
            assert(d1[i] == s1[i]);
        }
        assert forall|i: int| 0 <= i < d2.len() implies d2[i].0 != k2 by {
            assert(d2[i] == s2[i]);
        }
        lemma_assoc_absent(d1, k1);
        lemma_assoc_absent(d2, k2);
        assert(assoc_map(d1) =~= assoc_map(s1).remove(k1));
        assert(assoc_map(d2) =~= assoc_map(s2).remove(k2));
        assert(sorted_keys(d1)) by {
            assert forall|i: int, j: int| 0 <= i < j < d1.len() implies lex_lt(#[trigger] d1[i].0, #[trigger] d1[j].0) by {
                assert(d1[i] == s1[i] && d1[j] == s1[j]);
            }
        }
        assert(sorted_keys(d2)) by {
            assert forall|i: int, j: int| 0 <= i < j < d2.len() implies lex_lt(#[trigger] d2[i].0, #[trigger] d2[j].0) by {
                assert(d2[i] == s2[i] && d2[j] == s2[j]);
            }
        }
        assert(distinct_keys(d1)) by {
            assert forall|i: int, j: int| 0 <= i < j < d1.len() implies d1[i].0 != d1[j].0 by {
                assert(d1[i] == s1[i] && d1[j] == s1[j]);
            }
        }
        assert(distinct_keys(d2)) by {
            assert forall|i: int, j: int| 0 <= i < j < d2.len() implies d2[i].0 != d2[j].0 by {
                assert(d2[i] == s2[i] && d2[j] == s2[j]);
            }
        }
        law_sorted_entries_determined(d1, d2);
        assert(s1 =~= d1.push(s1[n1]));
        assert(s2 =~= d2.push(s2[n2]));
    }
}

/// Whether `a` comes before `b` in the order of agent identifiers.
pub fn id_less(a: &AgentId, b: &AgentId) -> (r: bool)
    ensures
        r == lex_lt(a@, b@),
{
    let mut i: usize = 0;
    assert(a@.skip(0) =~= a@);
    assert(b@.skip(0) =~= b@);
    while i < 32
        invariant
            0 <= i <= 32,
            lex_lt(a@, b@) == lex_lt(a@.skip(i as int), b@.skip(i as int)),
        decreases 32 - i,
    {
        if a[i] != b[i] {
            return a[i] < b[i];
        }
        assert(a@.skip(i as int).drop_first() =~= a@.skip(i as int + 1));
        assert(b@.skip(i as int).drop_first() =~= b@.skip(i as int + 1));
        i += 1;
    }
    false
}

/// The keys of a list of timestamp entries are strictly increasing.
pub open spec fn sorted_keys(s: Seq<(Seq<u8>, Seq<u64>)>) -> bool {
    forall|i: int, j: int| 0 <= i < j < s.len() ==> lex_lt(#[trigger] s[i].0, #[trigger] s[j].0)
}

/// The timestamps kept by the engine for `agent`, none if it never
/// published.
pub open spec fn timestamps_of(s: Seq<(Seq<u8>, Seq<u64>)>, agent: Seq<u8>) -> Seq<u64> {
    let m = assoc_map(s);
    if m.contains_key(agent) {
        m[agent]
    } else {
        Seq::empty()
    }
}

/// Keeps the timestamps no older than `cutoff`.
pub open spec fn not_before(cutoff: u64) -> spec_fn(u64) -> bool {
    |t: u64| t >= cutoff
}

/// The timestamps of an agent after it publishes at `t`: the new one is
/// appended and those older than the window before `t` are dropped.
pub open spec fn window_after(kept: Seq<u64>, t: u64, window_ms: u64) -> Seq<u64> {
    kept.push(t).filter(not_before(t.saturating_sub(window_ms)))
}

/// What a timing engine holds: the timestamps of each agent, in the order
/// of agent identifiers, the window they are kept for and the threshold it
/// was made with.
pub struct TimingCorrelationEngineView {
    pub agents: Seq<(Seq<u8>, Seq<u64>)>,
    pub window_ms: u64,
    pub correlation_threshold: u32,
}

/// Publication timestamps per agent, to detect coordinated bursts.
pub struct TimingCorrelationEngine {
    agent_timestamps: Vec<(AgentId, Vec<u64>)>,
    window_ms: u64,
    correlation_threshold: u32,
}

pub open spec fn timing_entries(s: Seq<(AgentId, Vec<u64>)>) -> Seq<(Seq<u8>, Seq<u64>)> {
    s.map_values(|e: (AgentId, Vec<u64>)| (e.0@, e.1@))
}

/// Agents ordered by identifier, no list longer than a `u32` can count.
pub open spec fn timing_wf(s: Seq<(Seq<u8>, Seq<u64>)>) -> bool {
    &&& sorted_keys(s)
    &&& distinct_keys(s)
    &&& forall|i: int| 0 <= i < s.len() ==> (#[trigger] s[i]).0.len() == 32 && s[i].1.len()
        <= u32::MAX
}

impl View for TimingCorrelationEngine {
    type V = TimingCorrelationEngineView;

    closed spec fn view(&self) -> TimingCorrelationEngineView {
        TimingCorrelationEngineView {
            agents: timing_entries(self.agent_timestamps@),
            window_ms: self.window_ms,
            correlation_threshold: self.correlation_threshold,
        }
    }
}

fn retain_not_before(list: &Vec<u64>, cutoff: u64) -> (r: Vec<u64>)
    ensures
        r@ == list@.filter(not_before(cutoff)),
{
    let mut out: Vec<u64> = Vec::new();
    let mut i: usize = 0;
    assert(list@.take(0) =~= Seq::<u64>::empty());
    proof {
        reveal(Seq::filter);
    }
    while i < list.len()
        invariant
            0 <= i <= list@.len(),
            out@ == list@.take(i as int).filter(not_before(cutoff)),
        decreases list@.len() - i,
    {
        proof {
            assert(list@.take(i as int + 1) =~= list@.take(i as int).push(list@[i as int]));
            list@.take(i as int).lemma_filter_push(list@[i as int], not_before(cutoff));
        }
        if list[i] >= cutoff {
            out.push(list[i]);
        }
        i += 1;
    }
    assert(list@.take(list@.len() as int) =~= list@);
    out
}

impl TimingCorrelationEngine {
    pub open spec fn wf(&self) -> bool {
        timing_wf(self@.agents)
    }

    pub fn new(window_ms: u64, threshold: u32) -> (r: Self)
        ensures
            r.wf(),
            r@.agents == Seq::<(Seq<u8>, Seq<u64>)>::empty(),
            r@.window_ms == window_ms,
            r@.correlation_threshold == threshold,
    {
        let r = TimingCorrelationEngine {
            agent_timestamps: Vec::new(),
            window_ms,
            correlation_threshold: threshold,
        };
        assert(timing_entries(r.agent_timestamps@) =~= Seq::empty());
        r
    }

    /// Records that `agent` published at `timestamp_ms`, keeping only its
    /// timestamps within the window before that time.
    pub fn record_timestamp(&mut self, agent: AgentId, timestamp_ms: u64)
        requires
            old(self).wf(),
            timestamps_of(old(self)@.agents, agent@).len() < u32::MAX,
        ensures
            final(self).wf(),
            assoc_map(final(self)@.agents) == assoc_map(old(self)@.agents).insert(
                agent@,
                window_after(timestamps_of(old(self)@.agents, agent@), timestamp_ms, old(self)@.window_ms),
            ),
            final(self)@.window_ms == old(self)@.window_ms,
            final(self)@.correlation_threshold == old(self)@.correlation_threshold,
    {
        let ghost old_entries = timing_entries(self.agent_timestamps@);
        let ghost kept = timestamps_of(old_entries, agent@);
        let cutoff = timestamp_ms.saturating_sub(self.window_ms);
        let n = self.agent_timestamps.len();
        let mut pos: usize = 0;
        let mut searching = true;
        while searching && pos < n
            invariant
                n == self.agent_timestamps@.len(),
                old_entries == timing_entries(self.agent_timestamps@),
                0 <= pos <= n,
                forall|k: int| 0 <= k < pos ==> lex_lt(#[trigger] old_entries[k].0, agent@),
                !searching ==> pos < n && !lex_lt(old_entries[pos as int].0, agent@),
            decreases n - pos, (if searching { 1int } else { 0int }),
        {
            if id_less(&self.agent_timestamps[pos].0, &agent) {
                pos += 1;
            } else {
                searching = false;
            }
        }
        proof {
            assert forall|k: int| 0 <= k < pos implies old_entries[k].0 != agent@ by {
                lemma_lex_irreflexive(agent@);
            }
        }
        if pos < n && ids32_equal(&self.agent_timestamps[pos].0, &agent) {
            proof {
                lemma_assoc_index(old_entries, pos as int);
            }
            let (a, mut list) = self.agent_timestamps.remove(pos);
            assert(list@ == kept);
            list.push(timestamp_ms);
            let new_list = retain_not_before(&list, cutoff);
            proof {
                list@.lemma_filter_len(not_before(cutoff));
            }
            self.agent_timestamps.insert(pos, (a, new_list));
            proof {
                assert(timing_entries(self.agent_timestamps@) =~= old_entries.update(
                    pos as int,
                    (agent@, new_list@),
                ));
                lemma_assoc_update(old_entries, pos as int, new_list@);
            }
        } else {
            proof {
                assert forall|k: int| 0 <= k < old_entries.len() implies old_entries[k].0
                    != agent@ by {
                    if k >= pos && old_entries[k].0 == agent@ {
                        if k > pos {
                            lemma_lex_total(old_entries[pos as int].0, agent@);
                            assert(lex_lt(old_entries[pos as int].0, old_entries[k].0));
                        }
                        assert(self.agent_timestamps@[k].0 =~= agent);
                    }
                }
                lemma_assoc_absent(old_entries, agent@);
            }
            let mut list: Vec<u64> = Vec::new();
            list.push(timestamp_ms);
            let new_list = retain_not_before(&list, cutoff);
            proof {
                list@.lemma_filter_len(not_before(cutoff));
                assert(list@ =~= kept.push(timestamp_ms));
            }
            self.agent_timestamps.insert(pos, (agent, new_list));
            proof {
                let t = timing_entries(self.agent_timestamps@);
                assert(t =~= old_entries.insert(pos as int, (agent@, new_list@)));
                lemma_assoc_insert_at(old_entries, pos as int, agent@, new_list@);
                assert forall|k: int| pos <= k < n implies lex_lt(agent@, #[trigger] old_entries[k].0) by {
                    lemma_lex_total(old_entries[pos as int].0, agent@);
                    if k > pos {
                        lemma_lex_transitive(agent@, old_entries[pos as int].0, old_entries[k].0);
                    }
                }
                assert forall|i: int, j: int| 0 <= i < j < t.len() implies lex_lt(
                    #[trigger] t[i].0,
                    #[trigger] t[j].0,
                ) by {
                    if i < pos && j < pos {
                        assert(t[i] == old_entries[i] && t[j] == old_entries[j]);
                    } else if i < pos && j == pos {
                        assert(t[i] == old_entries[i]);
                    } else if i < pos && j > pos {
                        assert(t[i] == old_entries[i] && t[j] == old_entries[j - 1]);
                        lemma_lex_transitive(t[i].0, agent@, t[j].0);
                    } else if i == pos {
                        assert(t[j] == old_entries[j - 1]);
                    } else {
                        assert(t[i] == old_entries[i - 1] && t[j] == old_entries[j - 1]);
                    }
                }
            }
        }
    }
}

/// Two timestamps coincide when they are at most 100 ms apart.
pub open spec fn near(ta: u64, tb: u64) -> bool {
    (if ta >= tb {
        ta - tb
    } else {
        tb - ta
    }) <= 100
}

/// Some timestamp of `bs` coincides with `ta`.
pub open spec fn has_near(ta: u64, bs: Seq<u64>) -> bool {
    exists|k: int| 0 <= k < bs.len() && near(ta, #[trigger] bs[k])
}

/// Number of timestamps of `a` that coincide with some timestamp of `b`;
/// each timestamp of `a` counts once, however many of `b` it meets.
pub open spec fn count_matched(a: Seq<u64>, b: Seq<u64>) -> nat
    decreases a.len(),
{
    if a.len() == 0 {
        0
    } else {
        count_matched(a.drop_last(), b) + (if has_near(a.last(), b) {
            1nat
        } else {
            0nat
        })
    }
}

/// The correlation of two agents as the fraction `matches / overlap`: the
/// overlap is the shorter of the two lists; the matches are the timestamps
/// of the first that coincide with one of the second, capped at the
/// overlap so that the fraction stays within 0 and 1; `(0, 0)` when either
/// list is empty.
pub open spec fn correlation_of(a: Seq<u64>, b: Seq<u64>) -> (nat, nat) {
    if a.len() == 0 || b.len() == 0 {
        (0, 0)
    } else {
        let overlap = if a.len() <= b.len() {
            a.len()
        } else {
            b.len()
        };
        let m = count_matched(a, b);
        (if m <= overlap {
            m
        } else {
            overlap
        }, overlap)
    }
}

/// A correlation score lies between 0 and 1: the matches never exceed the
/// overlap, and there are none when the overlap is 0.
pub proof fn lemma_correlation_at_most_one(a: Seq<u64>, b: Seq<u64>)
    ensures
        correlation_of(a, b).0 <= correlation_of(a, b).1,
{
}

/// Distance between neighbouring single-precision floats around the
/// integer `m`.
pub open spec fn f32_spacing(m: nat) -> nat
    decreases m,
{
    if m < 0x100_0000 {
        1
    } else {
        2 * f32_spacing(m / 2)
    }
}

/// The integer `m` rounded to single precision, to nearest, ties to even.
pub open spec fn f32_nearest(m: nat) -> nat {
    let u = f32_spacing(m);
    let q = m / u;
    let r = m % u;
    if 2 * r < u || (2 * r == u && q % 2 == 0) {
        q * u
    } else {
        (q + 1) * u
    }
}

/// The correlation `m / n`, computed in single precision, is above 0.8:
/// both counts are rounded to `f32` and so is their quotient; `0.8f32` is
/// 13421773 / 2^24, and a quotient rounds above it exactly when it is at
/// least 26843547 / 2^25, the tie going to the even neighbour above.
pub open spec fn exceeds_four_fifths(m: nat, n: nat) -> bool {
    n > 0 && f32_nearest(m) * 0x200_0000 >= 26843547 * f32_nearest(n)
}

/// The correlation `m / n`, computed in single precision, is above 0.5: a
/// quotient rounds above 0.5 exactly when it exceeds (2^24 + 1) / 2^25, the
/// tie going to 0.5 itself.
pub open spec fn exceeds_half(m: nat, n: nat) -> bool {
    n > 0 && f32_nearest(m) * 0x200_0000 > 16777217 * f32_nearest(n)
}

proof fn lemma_f32_spacing_pos(m: nat)
    ensures
        f32_spacing(m) >= 1,
    decreases m,
{
    if m >= 0x100_0000 {
        lemma_f32_spacing_pos(m / 2);
    }
}

fn f32_nearest_exec(m: u64) -> (r: u128)
    ensures
        r == f32_nearest(m as nat),
{
    let mut v: u64 = m;
    let mut u: u128 = 1;
    while v >= 0x100_0000
        invariant
            f32_spacing(m as nat) == u * f32_spacing(v as nat),
            1 <= u,
            u * v <= m,
        decreases v,
    {
        proof {
            let s = f32_spacing((v / 2) as nat);
            assert(f32_spacing(v as nat) == 2 * s);
            assert(u * (2 * s) == (2 * u) * s) by (nonlinear_arith);
            assert((2 * u) * (v / 2) <= u * v) by (nonlinear_arith)
                requires
                    u >= 1,
            ;
            assert(u * v >= u * 0x100_0000) by (nonlinear_arith)
                requires
                    v >= 0x100_0000,
                    u >= 1,
            ;
        }
        v = v / 2;
        u = u * 2;
    }
    let mm: u128 = m as u128;
    proof {
        assert(f32_spacing(v as nat) == 1);
        assert(u * f32_spacing(v as nat) == u) by (nonlinear_arith)
            requires
                f32_spacing(v as nat) == 1,
        ;
        assert(u == f32_spacing(m as nat));
        lemma_f32_spacing_le(m as nat);
    }
    let q = mm / u;
    let r = mm % u;
    proof {
        assert(q * u <= mm) by (nonlinear_arith)
            requires
                q == mm / u,
                u >= 1,
        ;
        assert((q + 1) * u == q * u + u) by (nonlinear_arith);
    }
    if 2 * r < u || (2 * r == u && q % 2 == 0) {
        q * u
    } else {
        (q + 1) * u
    }
}

/// The correlation of two agents as counts; see `correlation_of`.
#[derive(Clone, Copy, Debug, PartialEq, Eq, Structural)]
pub struct Correlation {
    pub matches: u32,
    pub overlap: usize,
}

impl Correlation {
    /// Whether the correlation is above 0.8.
    pub fn above_four_fifths(&self) -> (r: bool)
        ensures
            r == exceeds_four_fifths(self.matches as nat, self.overlap as nat),
    {
        if self.overlap == 0 {
            return false;
        }
        let m = f32_nearest_exec(self.matches as u64);
        let n = f32_nearest_exec(self.overlap as u64);
        proof {
            assert(m <= 0x2_0000_0000) by {
                lemma_f32_nearest_bound(self.matches as nat);
            }
            lemma_f32_nearest_bound(self.overlap as nat);
        }
        m * 0x200_0000 >= 26843547 * n
    }

    /// Whether the correlation is above 0.5.
    pub fn above_half(&self) -> (r: bool)
        ensures
            r == exceeds_half(self.matches as nat, self.overlap as nat),
    {
        if self.overlap == 0 {
            return false;
        }
        let m = f32_nearest_exec(self.matches as u64);
        let n = f32_nearest_exec(self.overlap as u64);
        proof {
            lemma_f32_nearest_bound(self.matches as nat);
            lemma_f32_nearest_bound(self.overlap as nat);
        }
        m * 0x200_0000 > 16777217 * n
    }
}

/// Rounding to single precision at most doubles an integer.
proof fn lemma_f32_nearest_bound(m: nat)
    ensures
        f32_nearest(m) <= 2 * m + 1,
{
    let u = f32_spacing(m);
    lemma_f32_spacing_pos(m);
    lemma_f32_spacing_le(m);
    let q = m / u;
    let r = m % u;
    assert(q * u + r == m) by (nonlinear_arith)
        requires
            q == m / u,
            r == m % u,
            u >= 1,
    ;
    assert((q + 1) * u == q * u + u) by (nonlinear_arith);
}

proof fn lemma_f32_spacing_le(m: nat)
    ensures
        f32_spacing(m) <= m + 1,
        m >= 1 ==> f32_spacing(m) <= m,
    decreases m,
{
    if m >= 0x100_0000 {
        lemma_f32_spacing_le(m / 2);
    }
}

fn correlation_between(ts_a: &Vec<u64>, ts_b: &Vec<u64>) -> (r: Correlation)
    requires
        ts_a@.len() <= u32::MAX,
    ensures
        (r.matches as nat, r.overlap as nat) == correlation_of(ts_a@, ts_b@),
        r.matches <= r.overlap,
{
    if ts_a.len() == 0 || ts_b.len() == 0 {
        return Correlation { matches: 0, overlap: 0 };
    }
    let mut matches: u32 = 0;
    let mut i: usize = 0;
    assert(ts_a@.take(0) =~= Seq::<u64>::empty());
    while i < ts_a.len()
        invariant
            0 <= i <= ts_a@.len(),
            ts_a@.len() <= u32::MAX,
            matches == count_matched(ts_a@.take(i as int), ts_b@),
            matches <= i,
        decreases ts_a@.len() - i,
    {
        let ta = ts_a[i];
        let mut found = false;
        let mut j: usize = 0;
        while j < ts_b.len() && !found
            invariant
                0 <= j <= ts_b@.len(),
                found ==> has_near(ta, ts_b@),
                !found ==> forall|k: int| 0 <= k < j ==> !near(ta, #[trigger] ts_b@[k]),
            decreases ts_b@.len() - j, (if found {
                0int
            } else {
                1int
            }),
        {
            let tb = ts_b[j];
            let diff = if ta >= tb {
                ta - tb
            } else {
                tb - ta
            };
            if diff <= 100 {
                found = true;
            } else {
                j += 1;
            }
        }
        assert(ts_a@.take(i as int + 1).drop_last() =~= ts_a@.take(i as int));
        if found {
            matches += 1;
        }
        i += 1;
    }
    assert(ts_a@.take(ts_a@.len() as int) =~= ts_a@);
    let overlap = if ts_a.len() <= ts_b.len() {
        ts_a.len()
    } else {
        ts_b.len()
    };
    let capped: u32 = if (matches as usize) <= overlap {
        matches
    } else {
        overlap as u32
    };
    Correlation { matches: capped, overlap }
}

/// The bursts among `s` from the pairs `(i, j)` with `i < j' < j`: the two
/// agents and their correlation, where it is above 0.5.
pub open spec fn bursts_row(s: Seq<(Seq<u8>, Seq<u64>)>, i: int, j: int) -> Seq<
    (Seq<u8>, Seq<u8>, nat, nat),
>
    decreases j - i,
{
    if j <= i + 1 {
        Seq::empty()
    } else {
        let prev = bursts_row(s, i, j - 1);
        let c = correlation_of(s[i].1, s[j - 1].1);
        if exceeds_half(c.0, c.1) {
            prev.push((s[i].0, s[j - 1].0, c.0, c.1))
        } else {
            prev
        }
    }
}

/// The bursts among the pairs whose first agent is one of the first `i`.
pub open spec fn bursts_upto(s: Seq<(Seq<u8>, Seq<u64>)>, i: int) -> Seq<
    (Seq<u8>, Seq<u8>, nat, nat),
>
    decreases i,
{
    if i <= 0 {
        Seq::empty()
    } else {
        bursts_upto(s, i - 1) + bursts_row(s, i - 1, s.len() as int)
    }
}

/// Every pair of agents, in the order of their identifiers, whose
/// correlation is above 0.5.
pub open spec fn bursts(s: Seq<(Seq<u8>, Seq<u64>)>) -> Seq<(Seq<u8>, Seq<u8>, nat, nat)> {
    bursts_upto(s, s.len() as int)
}

pub open spec fn burst_view(r: Seq<(AgentId, AgentId, Correlation)>) -> Seq<
    (Seq<u8>, Seq<u8>, nat, nat),
> {
    r.map_values(
        |e: (AgentId, AgentId, Correlation)| (e.0@, e.1@, e.2.matches as nat, e.2.overlap as nat),
    )
}

impl TimingCorrelationEngine {
    fn find(&self, agent: &AgentId) -> (r: Option<usize>)
        ensures
            match r {
                Some(i) => i < self.agent_timestamps@.len() && self.agent_timestamps@[i as int].0
                    == *agent,
                None => forall|i: int|
                    0 <= i < self.agent_timestamps@.len() ==> self.agent_timestamps@[i].0@
                        != agent@,
            },
    {
        let mut i: usize = 0;
        while i < self.agent_timestamps.len()
            invariant
                0 <= i <= self.agent_timestamps@.len(),
                forall|k: int| 0 <= k < i ==> self.agent_timestamps@[k].0@ != agent@,
            decreases self.agent_timestamps@.len() - i,
        {
            if ids32_equal(&self.agent_timestamps[i].0, agent) {
                return Some(i);
            }
            proof {
                if self.agent_timestamps@[i as int].0@ == agent@ {
                    assert(self.agent_timestamps@[i as int].0 =~= *agent);
                }
            }
            i += 1;
        }
        None
    }

    /// Number of timestamps kept for `agent`.
    pub fn timestamp_count(&self, agent: AgentId) -> (r: usize)
        requires
            self.wf(),
        ensures
            r == timestamps_of(self@.agents, agent@).len(),
    {
        let ghost s = self@.agents;
        match self.find(&agent) {
            Some(i) => {
                proof {
                    lemma_assoc_index(s, i as int);
                }
                self.agent_timestamps[i].1.len()
            },
            None => {
                proof {
                    lemma_assoc_absent(s, agent@);
                }
                0
            },
        }
    }

    /// The timing correlation of `agent_a` with `agent_b`.
    pub fn detect_correlation(&self, agent_a: AgentId, agent_b: AgentId) -> (r: Correlation)
        requires
            self.wf(),
        ensures
            (r.matches as nat, r.overlap as nat) == correlation_of(
                timestamps_of(self@.agents, agent_a@),
                timestamps_of(self@.agents, agent_b@),
            ),
            r.matches <= r.overlap,
    {
        let ghost s = self@.agents;
        let ia = self.find(&agent_a);
        let ib = self.find(&agent_b);
        match (ia, ib) {
            (Some(i), Some(j)) => {
                proof {
                    lemma_assoc_index(s, i as int);
                    lemma_assoc_index(s, j as int);
                    assert(s[i as int].1.len() <= u32::MAX);
                }
                correlation_between(&self.agent_timestamps[i].1, &self.agent_timestamps[j].1)
            },
            _ => {
                proof {
                    if ia is None {
                        lemma_assoc_absent(s, agent_a@);
                    }
                    if ib is None {
                        lemma_assoc_absent(s, agent_b@);
                    }
                }
                Correlation { matches: 0, overlap: 0 }
            },
        }
    }

    /// Every pair of agents, in the order of their identifiers, whose
    /// timing correlation is above 0.5.
    pub fn detect_burst_pattern(&self, now_ms: u64) -> (r: Vec<(AgentId, AgentId, Correlation)>)
        requires
            self.wf(),
        ensures
            burst_view(r@) == bursts(self@.agents),
    {
        let ghost s = self@.agents;
        let n = self.agent_timestamps.len();
        let mut out: Vec<(AgentId, AgentId, Correlation)> = Vec::new();
        let mut i: usize = 0;
        assert(burst_view(out@) =~= bursts_upto(s, 0));
        while i < n
            invariant
                n == s.len(),
                s == timing_entries(self.agent_timestamps@),
                timing_wf(s),
                0 <= i <= n,
                burst_view(out@) == bursts_upto(s, i as int),
            decreases n - i,
        {
            let mut j: usize = i + 1;
            assert(burst_view(out@) =~= bursts_upto(s, i as int) + bursts_row(s, i as int, j as int));
            while j < n
                invariant
                    n == s.len(),
                    s == timing_entries(self.agent_timestamps@),
                    timing_wf(s),
                    0 <= i < n,
                    i + 1 <= j <= n,
                    burst_view(out@) == bursts_upto(s, i as int) + bursts_row(s, i as int, j as int),
                decreases n - j,
            {
                proof {
                    assert(s[i as int].1.len() <= u32::MAX);
                }
                let c = correlation_between(&self.agent_timestamps[i].1, &self.agent_timestamps[j].1);
                let ghost prev = out@;
                if c.above_half() {
                    let a = self.agent_timestamps[i].0;
                    let b = self.agent_timestamps[j].0;
                    out.push((a, b, c));
                    proof {
                        assert(out@ =~= prev.push((a, b, c)));
                        assert(burst_view(out@) =~= burst_view(prev).push(
                            (a@, b@, c.matches as nat, c.overlap as nat),
                        ));
                        assert(bursts_row(s, i as int, j + 1) == bursts_row(s, i as int, j as int).push(
                            (s[i as int].0, s[j as int].0, c.matches as nat, c.overlap as nat),
                        ));
                        assert(burst_view(out@) =~= bursts_upto(s, i as int) + bursts_row(
                            s,
                            i as int,
                            j + 1,
                        ));
                    }
                } else {
                    proof {
                        assert(bursts_row(s, i as int, j + 1) == bursts_row(s, i as int, j as int));
                    }
                }
                j += 1;
            }
            proof {
                assert(bursts_upto(s, i + 1) == bursts_upto(s, i as int) + bursts_row(s, i as int, n as int));
            }
            i += 1;
        }
        out
    }
}

// ---------------------------------------------------------------------------
// The CreekGuard pipeline
// ---------------------------------------------------------------------------

/// What CreekGuard decides about a message.
#[derive(Debug, Clone, Copy, PartialEq, Eq, Structural)]
pub enum CreekGuardVerdict {
    /// Clean message: forward it.
    Pass,
    /// Suspect: silent quarantine.
    Quarantine,
    /// Confirmed covert channel: block it.
    Block,
    /// Redirect to a honeypot.
    Honeypot,
}

/// The error an entropy verdict raises: high entropy for an encrypted or
/// suspicious payload.
pub open spec fn entropy_errors(v: EntropyVerdict) -> Seq<CreekGuardErrorCode> {
    match v {
        EntropyVerdict::Encrypted => seq![CreekGuardErrorCode::EntropySuspiciouslyHigh],
        EntropyVerdict::Suspicious => seq![CreekGuardErrorCode::EntropySuspiciouslyHigh],
        _ => Seq::empty(),
    }
}

/// The timing errors of `agent` from the bursts it takes part in, in order:
/// a correlation above 0.8 is a timing correlation, one above 0.5 a burst.
pub open spec fn timing_errors(b: Seq<(Seq<u8>, Seq<u8>, nat, nat)>, agent: Seq<u8>) -> Seq<
    CreekGuardErrorCode,
>
    decreases b.len(),
{
    if b.len() == 0 {
        Seq::empty()
    } else {
        let prev = timing_errors(b.drop_last(), agent);
        let e = b.last();
        if e.0 == agent || e.1 == agent {
            if exceeds_four_fifths(e.2, e.3) {
                prev.push(CreekGuardErrorCode::TimingCorrelationDetected)
            } else if exceeds_half(e.2, e.3) {
                prev.push(CreekGuardErrorCode::BurstPatternDetected)
            } else {
                prev
            }
        } else {
            prev
        }
    }
}

/// The final verdict for the errors a message raised: none passes; an
/// exfiltrated watermark blocks; a timing correlation goes to the honeypot;
/// two errors or more quarantine; a single one is only observed.
pub open spec fn verdict_for(errors: Seq<CreekGuardErrorCode>) -> CreekGuardVerdict {
    if errors.len() == 0 {
        CreekGuardVerdict::Pass
    } else if errors.contains(CreekGuardErrorCode::WatermarkExfiltrated) {
        CreekGuardVerdict::Block
    } else if errors.contains(CreekGuardErrorCode::TimingCorrelationDetected) {
        CreekGuardVerdict::Honeypot
    } else if errors.len() >= 2 {
        CreekGuardVerdict::Quarantine
    } else {
        CreekGuardVerdict::Pass
    }
}

/// No code of the list reports an exfiltrated watermark.
pub open spec fn no_watermark(s: Seq<CreekGuardErrorCode>) -> bool {
    forall|k: int| 0 <= k < s.len() ==> s[k] != CreekGuardErrorCode::WatermarkExfiltrated
}

proof fn lemma_timing_errors_no_watermark(b: Seq<(Seq<u8>, Seq<u8>, nat, nat)>, agent: Seq<u8>)
    ensures
        no_watermark(timing_errors(b, agent)),
    decreases b.len(),
{
    if b.len() > 0 {
        lemma_timing_errors_no_watermark(b.drop_last(), agent);
    }
}

/// What one analysed message does to the counters: one more message; one
/// more exfiltrated canary when the verdict is `Block`; one more covert
/// channel when it is `Block` or `Honeypot`; and at most one more active
/// canary, only when the message count reaches a multiple of the injection
/// rate.
pub open spec fn metrics_step(before: CreekGuardView, after: CreekGuardView, v: CreekGuardVerdict) -> bool {
    &&& after.messages_processed == before.messages_processed + 1
    &&& after.canaries_exfiltrated == before.canaries_exfiltrated + (if v == CreekGuardVerdict::Block {
        1int
    } else {
        0int
    })
    &&& after.covert_channels_detected == before.covert_channels_detected + (if v
        == CreekGuardVerdict::Block || v == CreekGuardVerdict::Honeypot {
        1int
    } else {
        0int
    })
    &&& after.canaries.active.dom().finite()
    &&& after.canaries.active.len() <= before.canaries.active.len() + (if after.messages_processed
        % (CANARY_INJECTION_RATE as u64) == 0 {
        1int
    } else {
        0int
    })
}

/// Number of `Block` verdicts.
pub open spec fn count_blocks(vs: Seq<CreekGuardVerdict>) -> nat
    decreases vs.len(),
{
    if vs.len() == 0 {
        0
    } else {
        count_blocks(vs.drop_last()) + (if vs.last() == CreekGuardVerdict::Block {
            1nat
        } else {
            0nat
        })
    }
}

/// Number of `Block` and `Honeypot` verdicts.
pub open spec fn count_covert(vs: Seq<CreekGuardVerdict>) -> nat
    decreases vs.len(),
{
    if vs.len() == 0 {
        0
    } else {
        count_covert(vs.drop_last()) + (if vs.last() == CreekGuardVerdict::Block || vs.last()
            == CreekGuardVerdict::Honeypot {
            1nat
        } else {
            0nat
        })
    }
}

proof fn lemma_metrics_prefix(views: Seq<CreekGuardView>, verdicts: Seq<CreekGuardVerdict>, k: int)
    requires
        views.len() == verdicts.len() + 1,
        views[0].messages_processed == 0,
        views[0].canaries_exfiltrated == 0,
        views[0].covert_channels_detected == 0,
        views[0].canaries.active == Map::<Seq<u8>, CanaryToken>::empty(),
        forall|i: int|
            #![trigger verdicts[i]]
            0 <= i < verdicts.len() ==> metrics_step(views[i], views[i + 1], verdicts[i]),
        0 <= k <= verdicts.len(),
    ensures
        views[k].messages_processed == k,
        views[k].canaries_exfiltrated == count_blocks(verdicts.take(k)),
        views[k].covert_channels_detected == count_covert(verdicts.take(k)),
        views[k].canaries.active.dom().finite(),
        views[k].canaries.active.len() <= k / 100,
    decreases k,
{
    if k == 0 {
        assert(verdicts.take(0) =~= Seq::<CreekGuardVerdict>::empty());
        assert(views[0].canaries.active.dom() =~= Set::<Seq<u8>>::empty());
    } else {
        lemma_metrics_prefix(views, verdicts, k - 1);
        assert(metrics_step(views[k - 1], views[k], verdicts[k - 1]));
        assert(verdicts.take(k).drop_last() =~= verdicts.take(k - 1));
        assert(verdicts.take(k).last() == verdicts[k - 1]);
        let n = views[k].messages_processed;
        assert(n == k);
        if n % 100 == 0 {
            assert((k - 1) / 100 + 1 == k / 100);
        } else {
            assert((k - 1) / 100 <= k / 100);
        }
    }
}

/// Over a run of analysed messages from a fresh pipeline, the counters
/// read: as many messages as calls; as many exfiltrated canaries as `Block`
/// verdicts; as many covert channels as `Block` and `Honeypot` verdicts;
/// and at most one active canary per hundred messages. `views[i]` is the
/// pipeline before the `i`-th call and `verdicts[i]` what that call gave.
pub proof fn law_metrics_over_run(views: Seq<CreekGuardView>, verdicts: Seq<CreekGuardVerdict>)
    requires
        views.len() == verdicts.len() + 1,
        views[0].messages_processed == 0,
        views[0].canaries_exfiltrated == 0,
        views[0].covert_channels_detected == 0,
        views[0].canaries.active == Map::<Seq<u8>, CanaryToken>::empty(),
        forall|i: int|
            #![trigger verdicts[i]]
            0 <= i < verdicts.len() ==> metrics_step(views[i], views[i + 1], verdicts[i]),
    ensures
        views.last().messages_processed == verdicts.len(),
        views.last().canaries_exfiltrated == count_blocks(verdicts),
        views.last().covert_channels_detected == count_covert(verdicts),
        views.last().canaries.active.len() <= verdicts.len() / 100,
{
    let n = verdicts.len() as int;
    lemma_metrics_prefix(views, verdicts, n);
    assert(verdicts.take(n) =~= verdicts);
}

/// The state of the pipeline.
pub struct CreekGuardView {
    pub canaries: CanaryRegistryView,
    pub fingerprints: FingerprintRegistryView,
    pub limiter: SemanticRateLimiterView,
    pub timing: TimingCorrelationEngineView,
    pub messages_processed: u64,
    pub covert_channels_detected: u64,
    pub canaries_exfiltrated: u64,
}

/// The CreekGuard orchestrator: entropy, canaries, near-duplicates, novelty
/// and timing, in that order.
pub struct CreekGuard {
    pub canary_registry: CanaryRegistry,
    fingerprint_registry: FingerprintRegistry,
    semantic_limiter: SemanticRateLimiter,
    timing_engine: TimingCorrelationEngine,
    messages_processed: u64,
    covert_channels_detected: u64,
    canaries_exfiltrated: u64,
}

impl View for CreekGuard {
    type V = CreekGuardView;

    closed spec fn view(&self) -> CreekGuardView {
        CreekGuardView {
            canaries: self.canary_registry@,
            fingerprints: self.fingerprint_registry@,
            limiter: self.semantic_limiter@,
            timing: self.timing_engine@,
            messages_processed: self.messages_processed,
            covert_channels_detected: self.covert_channels_detected,
            canaries_exfiltrated: self.canaries_exfiltrated,
        }
    }
}

/// Counters of the pipeline.
pub struct CreekGuardMetrics {
    pub messages_processed: u64,
    pub covert_channels_detected: u64,
    pub canaries_exfiltrated: u64,
    pub canaries_active: u64,
}

fn contains_code(errors: &Vec<CreekGuardErrorCode>, code: CreekGuardErrorCode) -> (r: bool)
    ensures
        r == errors@.contains(code),
{
    let mut i: usize = 0;
    while i < errors.len()
        invariant
            0 <= i <= errors@.len(),
            forall|k: int| 0 <= k < i ==> errors@[k] != code,
        decreases errors@.len() - i,
    {
        if errors[i] == code {
            return true;
        }
        i += 1;
    }
    false
}

impl CreekGuard {
    pub closed spec fn wf(&self) -> bool {
        &&& self.canary_registry.wf()
        &&& self.fingerprint_registry.wf()
        &&& self.semantic_limiter.wf()
        &&& self.timing_engine.wf()
    }

    /// What a well-formed pipeline promises its callers of its parts: the
    /// timing engine lists its agents in identifier order, once each (so
    /// its list is determined by its map, `law_sorted_entries_determined`),
    /// and the active canaries are finitely many and consistent.
    pub proof fn lemma_wf_parts(&self)
        requires
            self.wf(),
        ensures
            timing_wf(self@.timing.agents),
            canaries_consistent(self@.canaries.active),
            self@.canaries.active.dom().finite(),
    {
        self.canary_registry.lemma_active_finite();
    }

    pub fn new() -> (r: Self)
        ensures
            r.wf(),
            r@.canaries.active == Map::<Seq<u8>, CanaryToken>::empty(),
            r@.canaries.detected_count == 0,
            r@.fingerprints.fingerprints == Map::<Seq<char>, Seq<BlindFingerprint>>::empty(),
            r@.fingerprints.duplicate_threshold == SEMANTIC_NOVELTY_THRESHOLD,
            r@.limiter.violations == Map::<(Seq<u8>, Seq<char>), u32>::empty(),
            r@.limiter.threshold == SEMANTIC_NOVELTY_THRESHOLD,
            r@.limiter.window_ms == 60_000,
            r@.timing.agents == Seq::<(Seq<u8>, Seq<u64>)>::empty(),
            r@.timing.window_ms == TIMING_CORRELATION_WINDOW_MS,
            r@.timing.correlation_threshold == 3,
            r@.messages_processed == 0,
            r@.covert_channels_detected == 0,
            r@.canaries_exfiltrated == 0,
    {
        CreekGuard {
            canary_registry: CanaryRegistry::new(),
            fingerprint_registry: FingerprintRegistry::new(SEMANTIC_NOVELTY_THRESHOLD),
            semantic_limiter: SemanticRateLimiter::new(SEMANTIC_NOVELTY_THRESHOLD, 60_000),
            timing_engine: TimingCorrelationEngine::new(TIMING_CORRELATION_WINDOW_MS, 3),
            messages_processed: 0,
            covert_channels_detected: 0,
            canaries_exfiltrated: 0,
        }
    }

    fn timing_errors_exec(bursts: &Vec<(AgentId, AgentId, Correlation)>, agent: &AgentId) -> (r: Vec<
        CreekGuardErrorCode,
    >)
        ensures
            r@ == timing_errors(burst_view(bursts@), agent@),
    {
        let ghost b = burst_view(bursts@);
        let mut out: Vec<CreekGuardErrorCode> = Vec::new();
        let mut i: usize = 0;
        assert(b.take(0) =~= Seq::<(Seq<u8>, Seq<u8>, nat, nat)>::empty());
        while i < bursts.len()
            invariant
                b == burst_view(bursts@),
                0 <= i <= bursts@.len(),
                out@ == timing_errors(b.take(i as int), agent@),
            decreases bursts@.len() - i,
        {
            let e = bursts[i];
            proof {
                assert(b.take(i as int + 1).drop_last() =~= b.take(i as int));
                assert(b.take(i as int + 1).last() == b[i as int]);
                if e.0@ == agent@ {
                    assert(e.0 =~= *agent);
                }
                if e.1@ == agent@ {
                    assert(e.1 =~= *agent);
                }
            }
            if ids32_equal(&e.0, agent) || ids32_equal(&e.1, agent) {
                if e.2.above_four_fifths() {
                    out.push(CreekGuardErrorCode::TimingCorrelationDetected);
                } else if e.2.above_half() {
                    out.push(CreekGuardErrorCode::BurstPatternDetected);
                }
            }
            i += 1;
        }
        assert(b.take(bursts@.len() as int) =~= b);
        out
    }

    /// The full analysis of a Creek message. `entropy` is the entropy
    /// verdict of its payload and `size_class` the integer binary logarithm
    /// of its length, both computed by the caller in floating point.
    pub fn analyze_message(
        &mut self,
        msg: &CreekMessage,
        entropy: EntropyVerdict,
        size_class: u8,
    ) -> (r: (CreekGuardVerdict, Vec<CreekGuardErrorCode>))
        requires
            old(self).wf(),
            old(self)@.messages_processed < u64::MAX,
            old(self)@.covert_channels_detected < u64::MAX,
            old(self)@.canaries_exfiltrated < u64::MAX,
            old(self)@.canaries.detected_count < u64::MAX,
            kept_for(old(self)@.fingerprints.fingerprints, msg.topic@).len() <= u32::MAX,
            violations_of(old(self)@.limiter.violations, msg.agent_id@, msg.topic@) < u32::MAX,
            timestamps_of(old(self)@.timing.agents, msg.agent_id@).len() < u32::MAX,
        ensures
            final(self).wf(),
            final(self)@.messages_processed == old(self)@.messages_processed + 1,
            metrics_step(old(self)@, final(self)@, r.0),
            canary_hit(old(self)@.canaries, msg.payload@) ==> {
                &&& r.0 == CreekGuardVerdict::Block
                &&& r.1@ == entropy_errors(entropy).push(CreekGuardErrorCode::WatermarkExfiltrated)
                &&& final(self)@.canaries.active == old(self)@.canaries.active
                &&& final(self)@.canaries.detected_count == old(self)@.canaries.detected_count + 1
                &&& final(self)@.canaries_exfiltrated == old(self)@.canaries_exfiltrated + 1
                &&& final(self)@.covert_channels_detected == old(self)@.covert_channels_detected + 1
                &&& final(self)@.fingerprints == old(self)@.fingerprints
                &&& final(self)@.limiter == old(self)@.limiter
                &&& final(self)@.timing == old(self)@.timing
            },
            !canary_hit(old(self)@.canaries, msg.payload@) ==> {
                let fp = fingerprint_of(msg.payload@, size_class);
                let kept = kept_for(old(self)@.fingerprints.fingerprints, msg.topic@);
                let dup = count_similar(kept, fp) >= old(self)@.fingerprints.duplicate_threshold;
                let c = violations_of(old(self)@.limiter.violations, msg.agent_id@, msg.topic@) + 1;
                let allowed = !dup || c < old(self)@.limiter.threshold;
                let errors = entropy_errors(entropy) + (if dup {
                    seq![CreekGuardErrorCode::NearDuplicateDetected]
                } else {
                    Seq::empty()
                }) + (if allowed {
                    Seq::empty()
                } else {
                    seq![CreekGuardErrorCode::SemanticNoveltyExceeded]
                }) + timing_errors(bursts(final(self)@.timing.agents), msg.agent_id@);
                let injected = final(self)@.messages_processed % (CANARY_INJECTION_RATE as u64)
                    == 0;
                let id = canary_id(msg.timestamp_ms);
                &&& r.1@ == errors
                &&& r.0 == verdict_for(errors)
                &&& final(self)@.fingerprints.fingerprints
                    == old(self)@.fingerprints.fingerprints.insert(
                    msg.topic@,
                    if dup {
                        kept
                    } else {
                        kept.push(fp)
                    },
                )
                &&& final(self)@.fingerprints.duplicate_threshold
                    == old(self)@.fingerprints.duplicate_threshold
                &&& final(self)@.limiter.violations == (if dup {
                    old(self)@.limiter.violations.insert((msg.agent_id@, msg.topic@), c as u32)
                } else {
                    old(self)@.limiter.violations
                })
                &&& final(self)@.limiter.threshold == old(self)@.limiter.threshold
                &&& final(self)@.limiter.window_ms == old(self)@.limiter.window_ms
                &&& assoc_map(final(self)@.timing.agents) == assoc_map(
                    old(self)@.timing.agents,
                ).insert(
                    msg.agent_id@,
                    window_after(
                        timestamps_of(old(self)@.timing.agents, msg.agent_id@),
                        msg.timestamp_ms,
                        old(self)@.timing.window_ms,
                    ),
                )
                &&& final(self)@.timing.window_ms == old(self)@.timing.window_ms
                &&& final(self)@.timing.correlation_threshold
                    == old(self)@.timing.correlation_threshold
                &&& injected ==> {
                    &&& final(self)@.canaries.active == old(self)@.canaries.active.insert(
                        id,
                        final(self)@.canaries.active[id],
                    )
                    &&& final(self)@.canaries.active[id].injected_at_ms == msg.timestamp_ms
                    &&& final(self)@.canaries.active[id].topic == msg.topic
                }
                &&& !injected ==> final(self)@.canaries.active == old(self)@.canaries.active
                &&& final(self)@.canaries.detected_count == old(self)@.canaries.detected_count
                &&& final(self)@.canaries_exfiltrated == old(self)@.canaries_exfiltrated
                &&& final(self)@.covert_channels_detected == old(self)@.covert_channels_detected + (
                if r.0 == CreekGuardVerdict::Block || r.0 == CreekGuardVerdict::Honeypot {
                    1int
                } else {
                    0int
                })
            },
    {
        proof {
            self.canary_registry.lemma_active_finite();
        }
        let mut errors: Vec<CreekGuardErrorCode> = Vec::new();
        self.messages_processed += 1;

        match entropy {
            EntropyVerdict::Encrypted => {
                errors.push(CreekGuardErrorCode::EntropySuspiciouslyHigh);
            },
            EntropyVerdict::Suspicious => {
                errors.push(CreekGuardErrorCode::EntropySuspiciouslyHigh);
            },
            _ => {},
        }
        assert(errors@ =~= entropy_errors(entropy));

        let exfiltrated = self.canary_registry.detect_exfiltration(msg.payload.as_slice()).is_some();
        if exfiltrated {
            errors.push(CreekGuardErrorCode::WatermarkExfiltrated);
            self.canaries_exfiltrated += 1;
            self.covert_channels_detected += 1;
            return (CreekGuardVerdict::Block, errors);
        }
        let ghost e1 = errors@;

        let fingerprint = FingerprintRegistry::compute_fingerprint(msg.payload.as_slice(), size_class);
        let (is_duplicate, _similar_count) = self.fingerprint_registry.check_near_duplicate(
            msg.topic,
            &fingerprint,
        );
        if is_duplicate {
            errors.push(CreekGuardErrorCode::NearDuplicateDetected);
        }
        let ghost e2 = errors@;

        let allowed = self.semantic_limiter.record_publication(
            msg.agent_id,
            msg.topic,
            is_duplicate,
            msg.timestamp_ms,
        );
        if !allowed {
            errors.push(CreekGuardErrorCode::SemanticNoveltyExceeded);
        }
        let ghost e3 = errors@;

        self.timing_engine.record_timestamp(msg.agent_id, msg.timestamp_ms);
        let bursts = self.timing_engine.detect_burst_pattern(msg.timestamp_ms);
        let mut timing = Self::timing_errors_exec(&bursts, &msg.agent_id);
        errors.append(&mut timing);
        proof {
            assert(e2 =~= e1 + (if is_duplicate {
                seq![CreekGuardErrorCode::NearDuplicateDetected]
            } else {
                Seq::empty()
            }));
            assert(e3 =~= e2 + (if allowed {
                Seq::<CreekGuardErrorCode>::empty()
            } else {
                seq![CreekGuardErrorCode::SemanticNoveltyExceeded]
            }));
        }

        if self.messages_processed % (CANARY_INJECTION_RATE as u64) == 0 {
            let _canary_payload = self.canary_registry.inject_canary(msg.topic, msg.timestamp_ms);
        }
        proof {
            self.canary_registry.lemma_active_finite();
            lemma_timing_errors_no_watermark(burst_view(bursts@), msg.agent_id@);
            assert(no_watermark(errors@));
        }

        let verdict = if errors.len() == 0 {
            CreekGuardVerdict::Pass
        } else if contains_code(&errors, CreekGuardErrorCode::WatermarkExfiltrated) {
            CreekGuardVerdict::Block
        } else if contains_code(&errors, CreekGuardErrorCode::TimingCorrelationDetected) {
            CreekGuardVerdict::Honeypot
        } else if errors.len() >= 2 {
            CreekGuardVerdict::Quarantine
        } else {
            CreekGuardVerdict::Pass
        };

        if verdict == CreekGuardVerdict::Block || verdict == CreekGuardVerdict::Honeypot {
            self.covert_channels_detected += 1;
        }
        (verdict, errors)
    }

    /// Whether `analyze_message` can take `msg`: none of the counters that
    /// it raises is at its limit.
    pub fn can_analyze(&self, msg: &CreekMessage) -> (r: bool)
        requires
            self.wf(),
        ensures
            r == {
                &&& self@.messages_processed < u64::MAX
                &&& self@.covert_channels_detected < u64::MAX
                &&& self@.canaries_exfiltrated < u64::MAX
                &&& self@.canaries.detected_count < u64::MAX
                &&& kept_for(self@.fingerprints.fingerprints, msg.topic@).len() <= u32::MAX
                &&& violations_of(self@.limiter.violations, msg.agent_id@, msg.topic@) < u32::MAX
                &&& timestamps_of(self@.timing.agents, msg.agent_id@).len() < u32::MAX
            },
    {
        let kept = self.fingerprint_registry.kept_count(msg.topic);
        let stamps = self.timing_engine.timestamp_count(msg.agent_id);
        self.messages_processed < u64::MAX && self.covert_channels_detected < u64::MAX
            && self.canaries_exfiltrated < u64::MAX && self.canary_registry.detected_count()
            < u64::MAX && kept as u64 <= u32::MAX as u64 && self.semantic_limiter.violation_count(
            msg.agent_id,
            msg.topic,
        ) < u32::MAX && (stamps as u64) < u32::MAX as u64
    }

    pub fn metrics(&self) -> (r: CreekGuardMetrics)
        requires
            self.wf(),
        ensures
            r.messages_processed == self@.messages_processed,
            r.covert_channels_detected == self@.covert_channels_detected,
            r.canaries_exfiltrated == self@.canaries_exfiltrated,
            r.canaries_active == self@.canaries.active.len(),
    {
        let n = self.canary_registry.active_count();
        CreekGuardMetrics {
            messages_processed: self.messages_processed,
            covert_channels_detected: self.covert_channels_detected,
            canaries_exfiltrated: self.canaries_exfiltrated,
            canaries_active: n as u64,
        }
    }
}

/// Near-duplicates: two fingerprints are similar exactly when they have the
/// same size class, all four MinHash values agree, and their SimHashes
/// differ in at most six bits. In particular fingerprints whose MinHash
/// values all differ are never similar, whatever their SimHashes.
pub proof fn law_similar_needs_every_minhash(a: BlindFingerprint, b: BlindFingerprint)
    ensures
        similar(a, b) <==> {
            &&& a.size_class == b.size_class
            &&& forall|i: int| 0 <= i < 4 ==> a.minhash[i] == b.minhash[i]
            &&& popcount(a.simhash ^ b.simhash) <= 6
        },
        (forall|i: int| 0 <= i < 4 ==> a.minhash[i] != b.minhash[i]) ==> !similar(a, b),
{
    if forall|i: int| 0 <= i < 4 ==> a.minhash[i] == b.minhash[i] {
        assert(minhash_matches(a, b) == 4);
    } else {
        let i = choose|i: int| 0 <= i < 4 && a.minhash[i] != b.minhash[i];
        assert(minhash_matches(a, b) <= 3) by {
            if i == 0 {
            } else if i == 1 {
            } else if i == 2 {
            } else {
            }
        }
    }
    if forall|i: int| 0 <= i < 4 ==> a.minhash[i] != b.minhash[i] {
        assert(a.minhash[0] != b.minhash[0]);
    }
}

/// The timing errors of an agent: a `TimingCorrelationDetected` is reported
/// exactly when some burst with a correlation above 0.8 involves the agent,
/// in either position.
pub proof fn law_timing_correlation_reported_either_position(
    b: Seq<(Seq<u8>, Seq<u8>, nat, nat)>,
    agent: Seq<u8>,
)
    ensures
        timing_errors(b, agent).contains(CreekGuardErrorCode::TimingCorrelationDetected) <==> exists|k: int|
            0 <= k < b.len() && (b[k].0 == agent || b[k].1 == agent) && exceeds_four_fifths(
                #[trigger] b[k].2,
                b[k].3,
            ),
    decreases b.len(),
{
    let tcd = CreekGuardErrorCode::TimingCorrelationDetected;
    if b.len() > 0 {
        let d = b.drop_last();
        law_timing_correlation_reported_either_position(d, agent);
        let prev = timing_errors(d, agent);
        let e = b.last();
        let n = b.len() - 1;
        let cur = timing_errors(b, agent);
        if exists|k: int|
            0 <= k < b.len() && (b[k].0 == agent || b[k].1 == agent) && exceeds_four_fifths(
                #[trigger] b[k].2,
                b[k].3,
            ) {
            let k = choose|k: int|
                0 <= k < b.len() && (b[k].0 == agent || b[k].1 == agent) && exceeds_four_fifths(
                    #[trigger] b[k].2,
                    b[k].3,
                );
            if k == n {
                assert(cur == prev.push(tcd));
                assert(cur[prev.len() as int] == tcd);
            } else {
                assert(d[k] == b[k]);
                assert(exceeds_four_fifths(d[k].2, d[k].3));
                let m = choose|m: int| 0 <= m < prev.len() && prev[m] == tcd;
                if (e.0 == agent || e.1 == agent) && (exceeds_four_fifths(e.2, e.3) || exceeds_half(
                    e.2,
                    e.3,
                )) {
                    assert(cur[m] == tcd);
                } else {
                    assert(cur == prev);
                }
            }
        }
        if cur.contains(tcd) {
            let m = choose|m: int| 0 <= m < cur.len() && cur[m] == tcd;
            if m < prev.len() {
                assert(prev[m] == tcd);
                let k = choose|k: int|
                    0 <= k < d.len() && (d[k].0 == agent || d[k].1 == agent) && exceeds_four_fifths(
                        #[trigger] d[k].2,
                        d[k].3,
                    );
                assert(d[k] == b[k]);
                assert(exceeds_four_fifths(b[k].2, b[k].3));
            } else {
                assert(exceeds_four_fifths(b[n].2, b[n].3));
            }
        }
    }
}

/// The pair of a burst names its agents in no significant order: swapping
/// the two agents of every burst leaves an agent's timing errors unchanged.
pub proof fn law_timing_errors_symmetric(b: Seq<(Seq<u8>, Seq<u8>, nat, nat)>, agent: Seq<u8>)
    ensures
        timing_errors(
            b.map_values(|e: (Seq<u8>, Seq<u8>, nat, nat)| (e.1, e.0, e.2, e.3)),
            agent,
        ) == timing_errors(b, agent),
    decreases b.len(),
{
    let f = |e: (Seq<u8>, Seq<u8>, nat, nat)| (e.1, e.0, e.2, e.3);
    let sb = b.map_values(f);
    if b.len() > 0 {
        law_timing_errors_symmetric(b.drop_last(), agent);
        assert(sb.drop_last() =~= b.drop_last().map_values(f));
        assert(sb.last() == f(b.last()));
    } else {
        assert(sb.len() == 0);
    }
}

/// After an agent publishes at `t`, with the window `w`: its kept
/// timestamps include `t`, are all at least `t - w` (0 when `w > t`), keep
/// every earlier one that recent, and hold nothing else; the other agents'
/// timestamps are unchanged. `after` is the engine's list as
/// `record_timestamp` leaves it.
pub proof fn law_recorded_timestamps_within_window(
    before: Seq<(Seq<u8>, Seq<u64>)>,
    after: Seq<(Seq<u8>, Seq<u64>)>,
    agent: Seq<u8>,
    t: u64,
    w: u64,
)
    requires
        assoc_map(after) == assoc_map(before).insert(
            agent,
            window_after(timestamps_of(before, agent), t, w),
        ),
    ensures
        ({
            let kept = timestamps_of(after, agent);
            let earlier = timestamps_of(before, agent);
            let cutoff: int = if t >= w {
                t - w
            } else {
                0
            };
            &&& kept.contains(t)
            &&& forall|k: int| 0 <= k < kept.len() ==> kept[k] >= cutoff
            &&& forall|x: u64| #[trigger] earlier.contains(x) && x >= cutoff ==> kept.contains(x)
            &&& forall|x: u64| #[trigger] kept.contains(x) ==> x == t || earlier.contains(x)
        }),
        forall|other: Seq<u8>|
            other != agent ==> #[trigger] timestamps_of(after, other) == timestamps_of(before, other),
{
    let earlier = timestamps_of(before, agent);
    let p = earlier.push(t);
    let c = t.saturating_sub(w);
    let pred = not_before(c);
    let cutoff: int = if t >= w {
        t - w
    } else {
        0
    };
    assert(c == cutoff);
    let kept = timestamps_of(after, agent);
    assert(kept == p.filter(pred));
    assert forall|k: int| 0 <= k < kept.len() implies kept[k] >= cutoff by {
        p.lemma_filter_pred(pred, k);
    }
    assert(p[p.len() - 1] == t);
    p.lemma_filter_contains(pred, p.len() - 1);
    assert forall|x: u64| #[trigger] earlier.contains(x) && x >= cutoff implies kept.contains(x) by {
        let i = choose|i: int| 0 <= i < earlier.len() && earlier[i] == x;
        assert(p[i] == x);
        p.lemma_filter_contains(pred, i);
    }
    assert forall|x: u64| #[trigger] kept.contains(x) implies x == t || earlier.contains(x) by {
        p.lemma_filter_contains_rev(pred, x);
        let i = choose|i: int| 0 <= i < p.len() && p[i] == x;
        if i < earlier.len() {
            assert(earlier[i] == x);
        }
    }
}

/// `popcount` counts set bits: none exactly for zero, at most 64, and one
/// more for a word with one more low bit set.
pub proof fn law_popcount_counts_bits(x: u64)
    ensures
        popcount(x) == 0 <==> x == 0,
        popcount(x) <= 64,
        x < 0x8000_0000_0000_0000 ==> popcount((2 * x + 1) as u64) == popcount(x) + 1,
        x < 0x8000_0000_0000_0000 ==> popcount((2 * x) as u64) == popcount(x),
{
    lemma_popcount_bound(x);
    if x != 0 {
        assert(x % 2 == 1 || x / 2 != 0);
        if x / 2 != 0 {
            lemma_popcount_nonzero(x / 2);
        }
    }
}

proof fn lemma_popcount_nonzero(x: u64)
    requires
        x != 0,
    ensures
        popcount(x) > 0,
    decreases x,
{
    if x % 2 == 0 {
        lemma_popcount_nonzero(x / 2);
    }
}

} // verus!
