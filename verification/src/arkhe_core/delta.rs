//! Transitions of the state: each adds one entity, refusing a duplicate
//! identifier or a reference to an entity that does not exist.
use vstd::prelude::*;
use std::collections::HashMap;
use vstd::std_specs::iter::IteratorSpec;
use crate::arkhe_core::types::{
    Artifact, ArtifactID, Belief, Claim, ClaimID, Decision, DecisionID, Event, Evidence, EvidenceID,
    Payload, State, StateView,
};
use crate::arkhe_core::hash::{Hasher, IdentityHasher, digest_text, digest_to_text, identity_digest};

verus! {

broadcast use vstd::std_specs::hash::group_hash_axioms;

#[derive(Debug, Clone, Copy, PartialEq, Eq)]
pub enum TransitionError {
    IdAlreadyExists,
    ReferencedIdNotFound,
    InvalidParentHash,
    EmptyEvidences,
}

/// A transition's result, with the state seen as maps.
pub open spec fn result_view(r: Result<State, TransitionError>) -> Result<StateView, TransitionError> {
    match r {
        Ok(s) => Ok(s@),
        Err(e) => Err(e),
    }
}

/// Adding artifact `id`: refused if the identifier is taken; otherwise the
/// artifact is recorded with the text of `digest` as its hash.
pub open spec fn artifact_added(
    s: StateView,
    id: ArtifactID,
    payload: Payload,
    metadata: String,
    digest: Seq<u8>,
    r: Result<StateView, TransitionError>,
) -> bool {
    if s.artifacts.contains_key(id) {
        r == Err::<StateView, TransitionError>(TransitionError::IdAlreadyExists)
    } else {
        r matches Ok(s2) && {
            &&& s2.artifacts == s.artifacts.insert(
                id,
                (Artifact { payload, metadata, hash: s2.artifacts[id].hash }),
            )
            &&& s2.artifacts[id].hash@ == digest_text(digest)
            &&& s2.evidences == s.evidences
            &&& s2.claims == s.claims
            &&& s2.beliefs == s.beliefs
            &&& s2.decisions == s.decisions
        }
    }
}

/// Some recorded evidence has the hash `h`.
pub open spec fn evidence_hashed(evidences: Map<EvidenceID, Evidence>, h: Seq<char>) -> bool {
    exists|k: EvidenceID| #[trigger] evidences.contains_key(k) && evidences[k].hash@ == h
}

/// Adding evidence `id` about artifact `art_id`: refused if the identifier
/// is taken, if the artifact is unknown, or if a parent hash is given that
/// no recorded evidence has; otherwise the evidence is recorded with the
/// text of `digest` as its hash.
pub open spec fn evidence_added(
    s: StateView,
    id: EvidenceID,
    art_id: ArtifactID,
    content: Payload,
    sig: crate::arkhe_core::types::Hash,
    ts: u64,
    ph: Option<crate::arkhe_core::types::Hash>,
    digest: Seq<u8>,
    r: Result<StateView, TransitionError>,
) -> bool {
    if s.evidences.contains_key(id) {
        r == Err::<StateView, TransitionError>(TransitionError::IdAlreadyExists)
    } else if !s.artifacts.contains_key(art_id) {
        r == Err::<StateView, TransitionError>(TransitionError::ReferencedIdNotFound)
    } else if ph matches Some(p) && !evidence_hashed(s.evidences, p@) {
        r == Err::<StateView, TransitionError>(TransitionError::InvalidParentHash)
    } else {
        r matches Ok(s2) && {
            &&& s2.evidences == s.evidences.insert(
                id,
                (Evidence {
                    artifact_id: art_id,
                    content,
                    signature: sig,
                    timestamp: ts,
                    parent_hash: ph,
                    hash: s2.evidences[id].hash,
                }),
            )
            &&& s2.evidences[id].hash@ == digest_text(digest)
            &&& s2.artifacts == s.artifacts
            &&& s2.claims == s.claims
            &&& s2.beliefs == s.beliefs
            &&& s2.decisions == s.decisions
        }
    }
}

/// Every identifier of `ids` is a key of `m`.
pub open spec fn all_known<V>(ids: Seq<u64>, m: Map<u64, V>) -> bool {
    forall|i: int| 0 <= i < ids.len() ==> m.contains_key(#[trigger] ids[i])
}

/// Adding claim `id`: refused if the identifier is taken, if it cites no
/// evidence, or if it cites an unknown one.
pub open spec fn claim_added(
    s: StateView,
    id: ClaimID,
    proposition: String,
    evidence_ids: Seq<EvidenceID>,
    r: Result<StateView, TransitionError>,
) -> bool {
    if s.claims.contains_key(id) {
        r == Err::<StateView, TransitionError>(TransitionError::IdAlreadyExists)
    } else if evidence_ids.len() == 0 {
        r == Err::<StateView, TransitionError>(TransitionError::EmptyEvidences)
    } else if !all_known(evidence_ids, s.evidences) {
        r == Err::<StateView, TransitionError>(TransitionError::ReferencedIdNotFound)
    } else {
        r matches Ok(s2) && {
            &&& s2.claims == s.claims.insert(id, s2.claims[id])
            &&& s2.claims[id].proposition == proposition
            &&& s2.claims[id].evidence_ids@ == evidence_ids
            &&& s2.artifacts == s.artifacts
            &&& s2.evidences == s.evidences
            &&& s2.beliefs == s.beliefs
            &&& s2.decisions == s.decisions
        }
    }
}

/// Adding belief `id` in claim `claim_id`: refused if the identifier is
/// taken or the claim unknown.
pub open spec fn belief_added(
    s: StateView,
    id: u64,
    claim_id: ClaimID,
    confidence: u8,
    justification: String,
) -> Result<StateView, TransitionError> {
    if s.beliefs.contains_key(id) {
        Err(TransitionError::IdAlreadyExists)
    } else if !s.claims.contains_key(claim_id) {
        Err(TransitionError::ReferencedIdNotFound)
    } else {
        Ok(
            StateView {
                beliefs: s.beliefs.insert(id, Belief { claim_id, confidence, justification }),
                ..s
            },
        )
    }
}

/// Adding decision `id`: refused if the identifier is taken or a belief it
/// rests on is unknown.
pub open spec fn decision_added(
    s: StateView,
    id: DecisionID,
    goal: String,
    belief_ids: Seq<u64>,
    timestamp: u64,
    r: Result<StateView, TransitionError>,
) -> bool {
    if s.decisions.contains_key(id) {
        r == Err::<StateView, TransitionError>(TransitionError::IdAlreadyExists)
    } else if !all_known(belief_ids, s.beliefs) {
        r == Err::<StateView, TransitionError>(TransitionError::ReferencedIdNotFound)
    } else {
        r matches Ok(s2) && {
            &&& s2.decisions == s.decisions.insert(id, s2.decisions[id])
            &&& s2.decisions[id].goal == goal
            &&& s2.decisions[id].belief_ids@ == belief_ids
            &&& s2.decisions[id].timestamp == timestamp
            &&& s2.artifacts == s.artifacts
            &&& s2.evidences == s.evidences
            &&& s2.claims == s.claims
            &&& s2.beliefs == s.beliefs
        }
    }
}

/// Adding artifact `id` with a hasher whose possible digests `hashes`
/// describes: the transition of `artifact_added` for some 32-byte digest,
/// which, where the artifact is added, is one the hasher gives of the
/// payload's UTF-8 bytes.
pub open spec fn artifact_applied(
    s: StateView,
    id: ArtifactID,
    payload: Payload,
    metadata: String,
    hashes: spec_fn(Seq<u8>, Seq<u8>) -> bool,
    r: Result<StateView, TransitionError>,
) -> bool {
    exists|d: Seq<u8>|
        {
            &&& d.len() == 32
            &&& #[trigger] artifact_added(s, id, payload, metadata, d, r)
            &&& r is Ok ==> hashes(vstd::utf8::encode_utf8(payload@), d)
        }
}

/// Adding evidence `id` with a hasher whose possible digests `hashes`
/// describes: the transition of `evidence_added` for some 32-byte digest,
/// which, where the evidence is added, is one the hasher gives of the
/// content's UTF-8 bytes.
pub open spec fn evidence_applied(
    s: StateView,
    id: EvidenceID,
    art_id: ArtifactID,
    content: Payload,
    sig: crate::arkhe_core::types::Hash,
    ts: u64,
    ph: Option<crate::arkhe_core::types::Hash>,
    hashes: spec_fn(Seq<u8>, Seq<u8>) -> bool,
    r: Result<StateView, TransitionError>,
) -> bool {
    exists|d: Seq<u8>|
        {
            &&& d.len() == 32
            &&& #[trigger] evidence_added(s, id, art_id, content, sig, ts, ph, d, r)
            &&& r is Ok ==> hashes(vstd::utf8::encode_utf8(content@), d)
        }
}

/// The digest the core takes of a text with the identity hasher.
pub open spec fn identity_digest_of(text: Seq<char>) -> Seq<u8> {
    identity_digest(vstd::utf8::encode_utf8(text))
}

/// `r` is what applying `event` to `s` gives.
pub open spec fn event_applied(s: StateView, event: Event, r: Result<StateView, TransitionError>) -> bool {
    match event {
        Event::ArtifactAdded(id, payload, metadata) => artifact_added(
            s,
            id,
            payload,
            metadata,
            identity_digest_of(payload@),
            r,
        ),
        Event::EvidenceAdded(id, art_id, content, sig, ts, ph) => evidence_added(
            s,
            id,
            art_id,
            content,
            sig,
            ts,
            ph,
            identity_digest_of(content@),
            r,
        ),
        Event::ClaimAdded(id, prop, evs) => claim_added(s, id, prop, evs@, r),
        Event::BeliefAdded(id, cid, conf, just) => r == belief_added(s, id, cid, conf, just),
        Event::DecisionAdded(id, goal, bids, ts) => decision_added(s, id, goal, bids@, ts, r),
    }
}

fn all_keys_known<V>(ids: &Vec<u64>, m: &HashMap<u64, V>) -> (r: bool)
    ensures
        r == all_known(ids@, m@),
{
    let mut i: usize = 0;
    while i < ids.len()
        invariant
            0 <= i <= ids@.len(),
            forall|k: int| 0 <= k < i ==> m@.contains_key(#[trigger] ids@[k]),
        decreases ids@.len() - i,
    {
        if !m.contains_key(&ids[i]) {
            return false;
        }
        i += 1;
    }
    true
}

/// Whether some recorded evidence has the hash `h`.
pub fn has_evidence_hashed(evidences: &HashMap<EvidenceID, Evidence>, h: &String) -> (r: bool)
    ensures
        r == evidence_hashed(evidences@, h@),
{
    let ghost vals = vstd::std_specs::hash::spec_values_iter(evidences).remaining().unref();
    let mut found = false;
    for e in it: evidences.values()
        invariant
            it.seq().unref() == vals,
            vals.to_set() == evidences@.values(),
            found == exists|j: int| 0 <= j < it.index() && vals[j].hash@ == h@,
    {
        proof {
            assert(vals[it.index() as int] == *e);
        }
        if e.hash == *h {
            found = true;
        }
    }
    proof {
        if found {
            let j = choose|j: int| 0 <= j < vals.len() && vals[j].hash@ == h@;
            assert(vals.to_set().contains(vals[j]));
            assert(evidences@.values().contains(vals[j]));
            let k = choose|k: EvidenceID| evidences@.contains_key(k) && evidences@[k] == vals[j];
            assert(evidences@.contains_key(k) && evidences@[k].hash@ == h@);
        }
        if evidence_hashed(evidences@, h@) {
            let k = choose|k: EvidenceID| #[trigger] evidences@.contains_key(k) && evidences@[k].hash@ == h@;
            assert(evidences@.values().contains(evidences@[k]));
            assert(vals.to_set().contains(evidences@[k]));
            let j = choose|j: int| 0 <= j < vals.len() && vals[j] == evidences@[k];
            assert(vals[j].hash@ == h@);
        }
    }
    found
}

/// Records artifact `id` whose content hashed to `digest`; see
/// `artifact_added`.
pub fn record_artifact(
    mut state: State,
    id: ArtifactID,
    payload: Payload,
    metadata: String,
    digest: [u8; 32],
) -> (r: Result<State, TransitionError>)
    ensures
        artifact_added(state@, id, payload, metadata, digest@, result_view(r)),
{
    if state.artifacts.contains_key(&id) {
        return Err(TransitionError::IdAlreadyExists);
    }
    let hash = digest_to_text(&digest);
    let ghost h = hash;
    state.artifacts.insert(id, Artifact { payload, metadata, hash });
    assert(state@.artifacts[id].hash == h);
    Ok(state)
}

/// Adds artifact `id`, hashing its payload with `hasher`.
pub fn apply_artifact(
    state: State,
    id: ArtifactID,
    payload: Payload,
    metadata: String,
    hasher: &dyn Hasher,
) -> (r: Result<State, TransitionError>)
    ensures
        artifact_applied(
            state@,
            id,
            payload,
            metadata,
            |c: Seq<u8>, d: Seq<u8>| hasher.hashes(c, d),
            result_view(r),
        ),
{
    if state.artifacts.contains_key(&id) {
        let r = Err(TransitionError::IdAlreadyExists);
        proof {
            let w = Seq::new(32, |i: int| 0u8);
            assert(w.len() == 32);
            assert(artifact_added(state@, id, payload, metadata, w, result_view(r)));
        }
        return r;
    }
    let digest = hasher.hash(payload.as_str().as_bytes());
    let ghost p = payload;
    let r = record_artifact(state, id, payload, metadata, digest);
    assert(digest@.len() == 32);
    assert(artifact_added(state@, id, p, metadata, digest@, result_view(r)));
    r
}

/// Records evidence `id` whose content hashed to `digest`; see
/// `evidence_added`.
pub fn record_evidence(
    mut state: State,
    id: EvidenceID,
    art_id: ArtifactID,
    c: Payload,
    sig: crate::arkhe_core::types::Hash,
    ts: u64,
    ph: Option<crate::arkhe_core::types::Hash>,
    digest: [u8; 32],
) -> (r: Result<State, TransitionError>)
    ensures
        evidence_added(state@, id, art_id, c, sig, ts, ph, digest@, result_view(r)),
{
    if state.evidences.contains_key(&id) {
        return Err(TransitionError::IdAlreadyExists);
    }
    if !state.artifacts.contains_key(&art_id) {
        return Err(TransitionError::ReferencedIdNotFound);
    }
    let pre_hash_ok = match &ph {
        None => true,
        Some(parent) => has_evidence_hashed(&state.evidences, parent),
    };
    if !pre_hash_ok {
        return Err(TransitionError::InvalidParentHash);
    }
    let hash = digest_to_text(&digest);
    let ghost h = hash;
    let ev = Evidence {
        artifact_id: art_id,
        content: c,
        signature: sig,
        timestamp: ts,
        parent_hash: ph,
        hash,
    };
    state.evidences.insert(id, ev);
    assert(state@.evidences[id].hash == h);
    Ok(state)
}

/// Adds evidence `id`, hashing its content with `hasher`.
pub fn apply_evidence(
    state: State,
    id: EvidenceID,
    art_id: ArtifactID,
    c: Payload,
    sig: crate::arkhe_core::types::Hash,
    ts: u64,
    ph: Option<crate::arkhe_core::types::Hash>,
    hasher: &dyn Hasher,
) -> (r: Result<State, TransitionError>)
    ensures
        evidence_applied(
            state@,
            id,
            art_id,
            c,
            sig,
            ts,
            ph,
            |x: Seq<u8>, d: Seq<u8>| hasher.hashes(x, d),
            result_view(r),
        ),
{
    let ghost w = Seq::new(32, |i: int| 0u8);
    assert(w.len() == 32);
    if state.evidences.contains_key(&id) {
        let r = Err(TransitionError::IdAlreadyExists);
        assert(evidence_added(state@, id, art_id, c, sig, ts, ph, w, result_view(r)));
        return r;
    }
    if !state.artifacts.contains_key(&art_id) {
        let r = Err(TransitionError::ReferencedIdNotFound);
        assert(evidence_added(state@, id, art_id, c, sig, ts, ph, w, result_view(r)));
        return r;
    }
    let pre_hash_ok = match &ph {
        None => true,
        Some(parent) => has_evidence_hashed(&state.evidences, parent),
    };
    if !pre_hash_ok {
        let r = Err(TransitionError::InvalidParentHash);
        assert(evidence_added(state@, id, art_id, c, sig, ts, ph, w, result_view(r)));
        return r;
    }
    let digest = hasher.hash(c.as_str().as_bytes());
    let ghost cc = c;
    let ghost pp = ph;
    let ghost ss = sig;
    let r = record_evidence(state, id, art_id, c, sig, ts, ph, digest);
    assert(digest@.len() == 32);
    assert(evidence_added(state@, id, art_id, cc, ss, ts, pp, digest@, result_view(r)));
    r
}

pub fn apply_claim(
    mut state: State,
    id: ClaimID,
    proposition: String,
    evidence_ids: Vec<EvidenceID>,
) -> (r: Result<State, TransitionError>)
    ensures
        claim_added(state@, id, proposition, evidence_ids@, result_view(r)),
{
    if state.claims.contains_key(&id) {
        return Err(TransitionError::IdAlreadyExists);
    }
    if evidence_ids.len() == 0 {
        return Err(TransitionError::EmptyEvidences);
    }
    if !all_keys_known(&evidence_ids, &state.evidences) {
        return Err(TransitionError::ReferencedIdNotFound);
    }
    let ghost ids = evidence_ids@;
    state.claims.insert(id, Claim { proposition, evidence_ids });
    assert(state@.claims[id].evidence_ids@ == ids);
    Ok(state)
}

pub fn apply_belief(
    mut state: State,
    id: u64,
    claim_id: ClaimID,
    confidence: u8,
    justification: String,
) -> (r: Result<State, TransitionError>)
    ensures
        result_view(r) == belief_added(state@, id, claim_id, confidence, justification),
{
    if state.beliefs.contains_key(&id) {
        return Err(TransitionError::IdAlreadyExists);
    }
    if !state.claims.contains_key(&claim_id) {
        return Err(TransitionError::ReferencedIdNotFound);
    }
    state.beliefs.insert(id, Belief { claim_id, confidence, justification });
    Ok(state)
}

pub fn apply_decision(
    mut state: State,
    id: DecisionID,
    goal: String,
    belief_ids: Vec<u64>,
    timestamp: u64,
) -> (r: Result<State, TransitionError>)
    ensures
        decision_added(state@, id, goal, belief_ids@, timestamp, result_view(r)),
{
    if state.decisions.contains_key(&id) {
        return Err(TransitionError::IdAlreadyExists);
    }
    if !all_keys_known(&belief_ids, &state.beliefs) {
        return Err(TransitionError::ReferencedIdNotFound);
    }
    let ghost ids = belief_ids@;
    state.decisions.insert(id, Decision { goal, belief_ids, timestamp });
    assert(state@.decisions[id].belief_ids@ == ids);
    Ok(state)
}

/// Applies `event` to `state`, hashing contents with the identity hasher.
pub fn apply(state: State, event: &Event) -> (r: Result<State, TransitionError>)
    ensures
        event_applied(state@, *event, result_view(r)),
{
    match event {
        Event::ArtifactAdded(id, payload, metadata) => {
            let digest = IdentityHasher.hash(payload.as_str().as_bytes());
            record_artifact(state, *id, payload.clone(), metadata.clone(), digest)
        },
        Event::EvidenceAdded(id, art_id, content, signature, ts, parent_hash) => {
            let digest = IdentityHasher.hash(content.as_str().as_bytes());
            let ph = match parent_hash {
                Some(h) => Some(h.clone()),
                None => None,
            };
            record_evidence(state, *id, *art_id, content.clone(), signature.clone(), *ts, ph, digest)
        },
        Event::ClaimAdded(id, prop, evs) => apply_claim(state, *id, prop.clone(), evs.clone()),
        Event::BeliefAdded(id, cid, conf, just) => apply_belief(state, *id, *cid, *conf, just.clone()),
        Event::DecisionAdded(id, goal, bids, ts) => apply_decision(
            state,
            *id,
            goal.clone(),
            bids.clone(),
            *ts,
        ),
    }
}

/// Applying an `ArtifactAdded` event is adding the artifact with the
/// identity hasher: the two describe the same results.
pub proof fn law_artifact_event_is_identity_hashing(
    s: StateView,
    id: ArtifactID,
    payload: Payload,
    metadata: String,
    r: Result<StateView, TransitionError>,
)
    ensures
        artifact_applied(
            s,
            id,
            payload,
            metadata,
            |c: Seq<u8>, d: Seq<u8>| IdentityHasher.hashes(c, d),
            r,
        ) <==> event_applied(s, Event::ArtifactAdded(id, payload, metadata), r),
{
    let d0 = identity_digest_of(payload@);
    assert(d0.len() == 32);
    if event_applied(s, Event::ArtifactAdded(id, payload, metadata), r) {
        assert(artifact_added(s, id, payload, metadata, d0, r));
    }
    if artifact_applied(
        s,
        id,
        payload,
        metadata,
        |c: Seq<u8>, d: Seq<u8>| IdentityHasher.hashes(c, d),
        r,
    ) {
        let d = choose|d: Seq<u8>|
            {
                &&& d.len() == 32
                &&& #[trigger] artifact_added(s, id, payload, metadata, d, r)
                &&& r is Ok ==> IdentityHasher.hashes(vstd::utf8::encode_utf8(payload@), d)
            };
        if r is Ok {
            assert(d == d0);
        }
    }
}

/// Applying an `EvidenceAdded` event is adding the evidence with the
/// identity hasher: the two describe the same results.
pub proof fn law_evidence_event_is_identity_hashing(
    s: StateView,
    id: EvidenceID,
    art_id: ArtifactID,
    content: Payload,
    sig: crate::arkhe_core::types::Hash,
    ts: u64,
    ph: Option<crate::arkhe_core::types::Hash>,
    r: Result<StateView, TransitionError>,
)
    ensures
        evidence_applied(
            s,
            id,
            art_id,
            content,
            sig,
            ts,
            ph,
            |c: Seq<u8>, d: Seq<u8>| IdentityHasher.hashes(c, d),
            r,
        ) <==> event_applied(s, Event::EvidenceAdded(id, art_id, content, sig, ts, ph), r),
{
    let d0 = identity_digest_of(content@);
    assert(d0.len() == 32);
    if event_applied(s, Event::EvidenceAdded(id, art_id, content, sig, ts, ph), r) {
        assert(evidence_added(s, id, art_id, content, sig, ts, ph, d0, r));
    }
    if evidence_applied(
        s,
        id,
        art_id,
        content,
        sig,
        ts,
        ph,
        |c: Seq<u8>, d: Seq<u8>| IdentityHasher.hashes(c, d),
        r,
    ) {
        let d = choose|d: Seq<u8>|
            {
                &&& d.len() == 32
                &&& #[trigger] evidence_added(s, id, art_id, content, sig, ts, ph, d, r)
                &&& r is Ok ==> IdentityHasher.hashes(vstd::utf8::encode_utf8(content@), d)
            };
        if r is Ok {
            assert(d == d0);
        }
    }
}

/// `apply` on an event does what the `apply_*` function of that event does
/// with the same fields, hashing artifacts and evidence with the identity
/// hasher: the results that `apply`'s contract admits are exactly those
/// that the other function's contract admits.
pub proof fn law_apply_is_the_apply_functions(
    s: StateView,
    event: Event,
    r: Result<StateView, TransitionError>,
)
    ensures
        event_applied(s, event, r) <==> match event {
            Event::ArtifactAdded(id, payload, metadata) => artifact_applied(
                s,
                id,
                payload,
                metadata,
                |c: Seq<u8>, d: Seq<u8>| IdentityHasher.hashes(c, d),
                r,
            ),
            Event::EvidenceAdded(id, art_id, content, sig, ts, ph) => evidence_applied(
                s,
                id,
                art_id,
                content,
                sig,
                ts,
                ph,
                |c: Seq<u8>, d: Seq<u8>| IdentityHasher.hashes(c, d),
                r,
            ),
            Event::ClaimAdded(id, prop, evs) => claim_added(s, id, prop, evs@, r),
            Event::BeliefAdded(id, cid, conf, just) => r == belief_added(s, id, cid, conf, just),
            Event::DecisionAdded(id, goal, bids, ts) => decision_added(s, id, goal, bids@, ts, r),
        },
{
    match event {
        Event::ArtifactAdded(id, payload, metadata) => {
            law_artifact_event_is_identity_hashing(s, id, payload, metadata, r);
        },
        Event::EvidenceAdded(id, art_id, content, sig, ts, ph) => {
            law_evidence_event_is_identity_hashing(s, id, art_id, content, sig, ts, ph, r);
        },
        _ => {},
    }
}

} // verus!


