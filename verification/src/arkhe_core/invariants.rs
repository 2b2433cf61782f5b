//! The integrity constraints of the state: IC6 (evidence cites a known
//! artifact), IC8 (the parent-hash chains are acyclic), IC10 (claims cite
//! evidence) and IC16 (decisions trace to known evidence).
use vstd::prelude::*;
use std::collections::HashMap;
use vstd::std_specs::iter::IteratorSpec;
use crate::arkhe_core::types::{
    ArtifactID, ClaimID, Decision, DecisionID, Event, Evidence, EvidenceID, Payload, State, StateView,
};
use crate::arkhe_core::delta::{
    all_known, artifact_added, artifact_applied, event_applied, evidence_added, evidence_applied,
    evidence_hashed, identity_digest_of, TransitionError,
};
use crate::arkhe_core::hash::digest_text;
use crate::text::{decimal, push_decimal};

verus! {

broadcast use vstd::std_specs::hash::group_hash_axioms;

#[derive(Debug, PartialEq, Eq, Clone)]
pub enum InvariantViolation {
    Ic6MissingArtifact { evidence_id: EvidenceID, artifact_id: ArtifactID },
    Ic8CycleDetected { evidence_id: EvidenceID, cycle_hash: crate::arkhe_core::types::Hash },
    Ic10EmptyClaim { claim_id: ClaimID },
    Ic16UntraceableDecision { decision_id: DecisionID, missing_evidence: EvidenceID },
}

/// The text of a violation, as it is reported.
pub open spec fn violation_text(v: InvariantViolation) -> Seq<char> {
    match v {
        InvariantViolation::Ic6MissingArtifact { evidence_id, artifact_id } => "IC6: Evidence "@
            + decimal(evidence_id as nat) + " references missing artifact "@ + decimal(
            artifact_id as nat,
        ),
        InvariantViolation::Ic8CycleDetected { evidence_id, cycle_hash } =>
            "IC8: Cycle detected at evidence "@ + decimal(evidence_id as nat) + ", hash "@
                + cycle_hash@,
        InvariantViolation::Ic10EmptyClaim { claim_id } => "IC10: Claim "@ + decimal(
            claim_id as nat,
        ) + " has no evidences"@,
        InvariantViolation::Ic16UntraceableDecision { decision_id, missing_evidence } =>
            "IC16: Decision "@ + decimal(decision_id as nat) + " references missing evidence "@
                + decimal(missing_evidence as nat),
    }
}

impl InvariantViolation {
    /// The text of the violation: which constraint, and the identifiers
    /// (and hash) involved.
    pub fn text(&self) -> (r: String)
        ensures
            r@ == violation_text(*self),
    {
        match self {
            InvariantViolation::Ic6MissingArtifact { evidence_id, artifact_id } => {
                let mut s = "IC6: Evidence ".to_owned();
                push_decimal(&mut s, *evidence_id);
                s.append(" references missing artifact ");
                push_decimal(&mut s, *artifact_id);
                s
            },
            InvariantViolation::Ic8CycleDetected { evidence_id, cycle_hash } => {
                let mut s = "IC8: Cycle detected at evidence ".to_owned();
                push_decimal(&mut s, *evidence_id);
                s.append(", hash ");
                s.append(cycle_hash.as_str());
                s
            },
            InvariantViolation::Ic10EmptyClaim { claim_id } => {
                let mut s = "IC10: Claim ".to_owned();
                push_decimal(&mut s, *claim_id);
                s.append(" has no evidences");
                s
            },
            InvariantViolation::Ic16UntraceableDecision { decision_id, missing_evidence } => {
                let mut s = "IC16: Decision ".to_owned();
                push_decimal(&mut s, *decision_id);
                s.append(" references missing evidence ");
                push_decimal(&mut s, *missing_evidence);
                s
            },
        }
    }
}

/// `ks` lists the keys of `m`, each once: an order in which a hash map
/// may be walked.
pub open spec fn key_order<V>(ks: Seq<u64>, m: Map<u64, V>) -> bool {
    ks.no_duplicates() && ks.to_set() == m.dom()
}

/// The keys of a map in the order the map walks them.
pub fn keys_of<V>(m: &HashMap<u64, V>) -> (r: Vec<u64>)
    ensures
        key_order(r@, m@),
{
    let mut out: Vec<u64> = Vec::new();
    let ghost ks = vstd::std_specs::hash::spec_keys_iter(m).remaining().unref();
    for k in it: m.keys()
        invariant
            it.seq().unref() == ks,
            out@ == ks.take(it.index() as int),
    {
        proof {
            assert(ks.take(it.index() as int + 1) =~= ks.take(it.index() as int).push(*k));
        }
        out.push(*k);
    }
    assert(out@ =~= ks);
    out
}

// ---------------------------------------------------------------------------
// IC8: acyclic evidence chains
// ---------------------------------------------------------------------------

/// The evidences of `s` in the order of `ks`, with their identifiers.
pub open spec fn evidences_in(s: StateView, ks: Seq<u64>) -> Seq<(EvidenceID, Evidence)> {
    ks.map_values(|k: u64| (k, s.evidences[k]))
}

/// The parent hash of an evidence, as text.
pub open spec fn parent_of(e: Evidence) -> Option<Seq<char>> {
    match e.parent_hash {
        Some(p) => Some(p@),
        None => None,
    }
}

/// The first evidence of `es`, from position `i` on, whose hash is `h`.
pub open spec fn first_hashed_from(es: Seq<(EvidenceID, Evidence)>, h: Seq<char>, i: int) -> Option<
    int,
>
    decreases es.len() - i,
{
    if i < 0 || i >= es.len() {
        None
    } else if es[i].1.hash@ == h {
        Some(i)
    } else {
        first_hashed_from(es, h, i + 1)
    }
}

/// The `k`-th hash on the chain that starts at `start`: each step goes to
/// the parent of the first evidence in `es` with the current hash.
pub open spec fn chain(es: Seq<(EvidenceID, Evidence)>, start: Option<Seq<char>>, k: nat) -> Option<
    Seq<char>,
>
    decreases k,
{
    if k == 0 {
        start
    } else {
        match chain(es, start, (k - 1) as nat) {
            Some(h) => match first_hashed_from(es, h, 0) {
                Some(i) => parent_of(es[i].1),
                None => None,
            },
            None => None,
        }
    }
}

/// The `k`-th hash of the chain already occurred before it.
pub open spec fn repeats_at(es: Seq<(EvidenceID, Evidence)>, start: Option<Seq<char>>, k: nat) -> bool {
    chain(es, start, k) is Some && exists|j: nat| j < k && #[trigger] chain(es, start, j) == chain(es, start, k)
}

/// The chain from `start` comes back to a hash it went through.
pub open spec fn cyclic(es: Seq<(EvidenceID, Evidence)>, start: Option<Seq<char>>) -> bool {
    exists|k: nat| #[trigger] repeats_at(es, start, k)
}

/// The first hash that the chain from `start` meets a second time.
pub open spec fn cycle_hash(es: Seq<(EvidenceID, Evidence)>, start: Option<Seq<char>>) -> Seq<char> {
    let k = choose|k: nat|
        #[trigger] repeats_at(es, start, k) && forall|j: nat| j < k ==> !repeats_at(es, start, j);
    chain(es, start, k)->0
}

/// The first evidence of `es`, from position `i` on, whose chain is cyclic.
pub open spec fn first_cyclic(es: Seq<(EvidenceID, Evidence)>, i: int) -> Option<int>
    decreases es.len() - i,
{
    if i < 0 || i >= es.len() {
        None
    } else if cyclic(es, parent_of(es[i].1)) {
        Some(i)
    } else {
        first_cyclic(es, i + 1)
    }
}

/// `r` reports the first evidence of `es` whose chain is cyclic, with the
/// first repeated hash, or success if there is none.
pub open spec fn ic8_outcome(es: Seq<(EvidenceID, Evidence)>, r: Result<(), InvariantViolation>) -> bool {
    match first_cyclic(es, 0) {
        None => r is Ok,
        Some(i) => r matches Err(InvariantViolation::Ic8CycleDetected { evidence_id, cycle_hash: h })
            && evidence_id == es[i].0 && h@ == cycle_hash(es, parent_of(es[i].1)),
    }
}

proof fn lemma_chain_ends(es: Seq<(EvidenceID, Evidence)>, start: Option<Seq<char>>, k: nat, m: nat)
    requires
        chain(es, start, k) is None,
        k <= m,
    ensures
        chain(es, start, m) is None,
    decreases m - k,
{
    if k < m {
        lemma_chain_ends(es, start, k, (m - 1) as nat);
    }
}

/// A repetition-free prefix of indices below `n` is at most `n` long.
proof fn lemma_distinct_below(u: Seq<int>, n: int)
    requires
        u.no_duplicates(),
        forall|m: int| 0 <= m < u.len() ==> 0 <= #[trigger] u[m] < n,
        n >= 0,
    ensures
        u.len() <= n,
{
    u.unique_seq_to_set();
    vstd::set_lib::lemma_int_range(0, n);
    assert(u.to_set().subset_of(vstd::set_lib::set_int_range(0, n)));
    vstd::set_lib::lemma_len_subset(u.to_set(), vstd::set_lib::set_int_range(0, n));
}

proof fn lemma_first_hashed_range(es: Seq<(EvidenceID, Evidence)>, h: Seq<char>, i: int)
    ensures
        first_hashed_from(es, h, i) matches Some(t) ==> i <= t < es.len() && es[t].1.hash@ == h,
    decreases es.len() - i,
{
    if 0 <= i < es.len() && es[i].1.hash@ != h {
        lemma_first_hashed_range(es, h, i + 1);
    }
}

fn find_hashed(s: &State, keys: &Vec<u64>, h: &String) -> (r: Option<usize>)
    requires
        key_order(keys@, s@.evidences),
    ensures
        match r {
            Some(i) => first_hashed_from(evidences_in(s@, keys@), h@, 0) == Some(i as int),
            None => first_hashed_from(evidences_in(s@, keys@), h@, 0) is None,
        },
{
    let ghost es = evidences_in(s@, keys@);
    let mut i: usize = 0;
    while i < keys.len()
        invariant
            key_order(keys@, s@.evidences),
            es == evidences_in(s@, keys@),
            0 <= i <= keys@.len(),
            first_hashed_from(es, h@, 0) == first_hashed_from(es, h@, i as int),
        decreases keys@.len() - i,
    {
        assert(keys@.to_set().contains(keys@[i as int]));
        let e = s.evidences.get(&keys[i]).unwrap();
        if e.hash == *h {
            return Some(i);
        }
        i += 1;
    }
    None
}

fn seen(visited: &Vec<String>, p: &String) -> (r: bool)
    ensures
        r == exists|m: int| 0 <= m < visited@.len() && (#[trigger] visited@[m])@ == p@,
{
    let mut i: usize = 0;
    while i < visited.len()
        invariant
            0 <= i <= visited@.len(),
            forall|m: int| 0 <= m < i ==> (#[trigger] visited@[m])@ != p@,
        decreases visited@.len() - i,
    {
        if visited[i] == *p {
            return true;
        }
        i += 1;
    }
    false
}

/// Follows the chain of the evidence at position `i`; the first repeated
/// hash if it is cyclic.
fn walk_from(s: &State, keys: &Vec<u64>, i: usize) -> (r: Option<String>)
    requires
        key_order(keys@, s@.evidences),
        i < keys@.len(),
    ensures
        ({
            let es = evidences_in(s@, keys@);
            let start = parent_of(es[i as int].1);
            match r {
                None => !cyclic(es, start),
                Some(h) => cyclic(es, start) && h@ == cycle_hash(es, start),
            }
        }),
{
    let ghost es = evidences_in(s@, keys@);
    let ghost start = parent_of(es[i as int].1);
    let n = keys.len();
    let mut visited: Vec<String> = Vec::new();
    let mut j: usize = i;
    let ghost mut k: nat = 0;
    let ghost mut used: Seq<int> = seq![i as int];
    while true
        invariant
            key_order(keys@, s@.evidences),
            es == evidences_in(s@, keys@),
            start == parent_of(es[i as int].1),
            n == keys@.len(),
            j < n,
            visited@.len() == k,
            used.len() == k + 1,
            used[k as int] == j,
            forall|m: int| 0 <= m <= k ==> 0 <= #[trigger] used[m] < n,
            forall|m: int| 0 <= m <= k ==> chain(es, start, m as nat) == parent_of(es[#[trigger] used[m]].1),
            forall|m: int| 0 <= m < k ==> chain(es, start, m as nat) == Some((#[trigger] visited@[m])@),
            forall|a: int, b: int| 0 <= a < b < k ==> (#[trigger] visited@[a])@ != (#[trigger] visited@[b])@,
            k <= n,
        decreases n - k,
    {
        proof {
            assert(keys@.to_set().contains(keys@[j as int]));
        }
        let e = s.evidences.get(&keys[j]).unwrap();
        assert(es[j as int].1 == *e);
        match &e.parent_hash {
            None => {
                proof {
                    assert forall|m: nat| !repeats_at(es, start, m) by {
                        if m >= k {
                            lemma_chain_ends(es, start, k, m);
                        } else {
                            if repeats_at(es, start, m) {
                                let j2 = choose|j2: nat| j2 < m && #[trigger] chain(es, start, j2) == chain(es, start, m);
                                assert(visited@[j2 as int]@ == visited@[m as int]@);
                            }
                        }
                    }
                }
                return None;
            },
            Some(p) => {
                if seen(&visited, p) {
                    let h = p.clone();
                    proof {
                        let m0 = choose|m: int| 0 <= m < visited@.len() && (#[trigger] visited@[m])@ == p@;
                        assert(chain(es, start, m0 as nat) == chain(es, start, k));
                        assert(repeats_at(es, start, k));
                        assert forall|m: nat| m < k implies !repeats_at(es, start, m) by {
                            if repeats_at(es, start, m) {
                                let j2 = choose|j2: nat| j2 < m && #[trigger] chain(es, start, j2) == chain(es, start, m);
                                assert(visited@[j2 as int]@ == visited@[m as int]@);
                            }
                        }
                        let kk = choose|kk: nat|
                            #[trigger] repeats_at(es, start, kk) && forall|j3: nat| j3 < kk ==> !repeats_at(es, start, j3);
                        assert(kk == k) by {
                            if kk < k {
                            } else if kk > k {
                                assert(!repeats_at(es, start, k));
                            }
                        }
                    }
                    return Some(h);
                }
                let ghost vis_before = visited@;
                visited.push(p.clone());
                proof {
                    assert forall|a: int, b: int| 0 <= a < b < k + 1 implies (#[trigger] visited@[a])@ != (#[trigger] visited@[b])@ by {
                        if b == k {
                            assert(visited@[a] == vis_before[a]);
                        } else {
                            assert(visited@[a] == vis_before[a] && visited@[b] == vis_before[b]);
                        }
                    }
                    let u = used;
                    assert forall|a: int, b: int| 0 <= a < b < u.len() implies u[a] != u[b] by {
                        if u[a] == u[b] {
                            assert(chain(es, start, a as nat) == chain(es, start, b as nat));
                            assert(visited@[a]@ == visited@[b]@);
                        }
                    }
                    assert(u.no_duplicates());
                    lemma_distinct_below(u, n as int);
                }
                match find_hashed(s, keys, p) {
                    None => {
                        proof {
                            assert(chain(es, start, k + 1) is None);
                            assert forall|m: nat| !repeats_at(es, start, m) by {
                                if m >= k + 1 {
                                    lemma_chain_ends(es, start, k + 1, m);
                                } else {
                                    if repeats_at(es, start, m) {
                                        let j2 = choose|j2: nat| j2 < m && #[trigger] chain(es, start, j2) == chain(es, start, m);
                                        assert(visited@[j2 as int]@ == visited@[m as int]@);
                                    }
                                }
                            }
                        }
                        return None;
                    },
                    Some(t) => {
                        proof {
                            lemma_first_hashed_range(es, p@, 0);
                        }
                        j = t;
                        proof {
                            k = k + 1;
                            used = used.push(t as int);
                        }
                    },
                }
            },
        }
    }
    None
}

/// IC8 over the evidences taken in the order of `keys`.
pub fn ic8_in_order(s: &State, keys: &Vec<u64>) -> (r: Result<(), InvariantViolation>)
    requires
        key_order(keys@, s@.evidences),
    ensures
        ic8_outcome(evidences_in(s@, keys@), r),
{
    let ghost es = evidences_in(s@, keys@);
    let mut i: usize = 0;
    while i < keys.len()
        invariant
            key_order(keys@, s@.evidences),
            es == evidences_in(s@, keys@),
            0 <= i <= keys@.len(),
            first_cyclic(es, 0) == first_cyclic(es, i as int),
        decreases keys@.len() - i,
    {
        match walk_from(s, keys, i) {
            Some(h) => {
                return Err(InvariantViolation::Ic8CycleDetected { evidence_id: keys[i], cycle_hash: h });
            },
            None => {},
        }
        i += 1;
    }
    Ok(())
}

/// IC8: no chain of parent hashes comes back on itself. The evidences are
/// taken in the order the map walks them, which decides which evidence is
/// reported and, where hashes repeat, which evidence a hash leads to.
pub fn ic8_acyclic(s: &State) -> (r: Result<(), InvariantViolation>)
    ensures
        exists|ks: Seq<u64>| key_order(ks, s@.evidences) && #[trigger] ic8_outcome(evidences_in(s@, ks), r),
{
    let keys = keys_of(&s.evidences);
    let r = ic8_in_order(s, &keys);
    assert(ic8_outcome(evidences_in(s@, keys@), r));
    r
}

// ---------------------------------------------------------------------------
// IC6, IC10, IC16 and the whole check
// ---------------------------------------------------------------------------

/// IC6 violations, one per evidence (in the order of `ks`) whose artifact
/// is unknown.
pub open spec fn ic6_seq(s: StateView, ks: Seq<u64>) -> Seq<InvariantViolation>
    decreases ks.len(),
{
    if ks.len() == 0 {
        Seq::empty()
    } else {
        let prev = ic6_seq(s, ks.drop_last());
        let eid = ks.last();
        let aid = s.evidences[eid].artifact_id;
        if s.artifacts.contains_key(aid) {
            prev
        } else {
            prev.push(InvariantViolation::Ic6MissingArtifact { evidence_id: eid, artifact_id: aid })
        }
    }
}

/// IC10 violations, one per claim (in the order of `ks`) citing no
/// evidence.
pub open spec fn ic10_seq(s: StateView, ks: Seq<u64>) -> Seq<InvariantViolation>
    decreases ks.len(),
{
    if ks.len() == 0 {
        Seq::empty()
    } else {
        let prev = ic10_seq(s, ks.drop_last());
        let cid = ks.last();
        if s.claims[cid].evidence_ids@.len() == 0 {
            prev.push(InvariantViolation::Ic10EmptyClaim { claim_id: cid })
        } else {
            prev
        }
    }
}

/// `acc` extended with the elements of `xs` it does not hold yet, in order.
pub open spec fn add_new(acc: Seq<u64>, xs: Seq<u64>) -> Seq<u64>
    decreases xs.len(),
{
    if xs.len() == 0 {
        acc
    } else {
        let a = add_new(acc, xs.drop_last());
        if a.contains(xs.last()) {
            a
        } else {
            a.push(xs.last())
        }
    }
}

/// The evidences a decision resting on `bids` traces to: those cited by
/// the claims of its known beliefs, each once.
pub open spec fn trace_seq(s: StateView, bids: Seq<u64>) -> Seq<u64>
    decreases bids.len(),
{
    if bids.len() == 0 {
        Seq::empty()
    } else {
        let acc = trace_seq(s, bids.drop_last());
        let b = bids.last();
        if s.beliefs.contains_key(b) && s.claims.contains_key(s.beliefs[b].claim_id) {
            add_new(acc, s.claims[s.beliefs[b].claim_id].evidence_ids@)
        } else {
            acc
        }
    }
}

/// IC16 violations of decision `did`: the traced evidences that are
/// unknown.
pub open spec fn missing_of(s: StateView, did: DecisionID, tr: Seq<u64>) -> Seq<InvariantViolation>
    decreases tr.len(),
{
    if tr.len() == 0 {
        Seq::empty()
    } else {
        let prev = missing_of(s, did, tr.drop_last());
        if s.evidences.contains_key(tr.last()) {
            prev
        } else {
            prev.push(
                InvariantViolation::Ic16UntraceableDecision {
                    decision_id: did,
                    missing_evidence: tr.last(),
                },
            )
        }
    }
}

/// IC16 violations of the decisions, in the order of `ks`.
pub open spec fn ic16_seq(s: StateView, ks: Seq<u64>) -> Seq<InvariantViolation>
    decreases ks.len(),
{
    if ks.len() == 0 {
        Seq::empty()
    } else {
        let did = ks.last();
        ic16_seq(s, ks.drop_last()) + missing_of(s, did, trace_seq(s, s.decisions[did].belief_ids@))
    }
}

/// `r` is the outcome of checking every constraint, the evidences taken in
/// the order of `ke`, the claims in that of `kc` and the decisions in that
/// of `kd`: the IC6 violations, the IC8 one if any, the IC10 and the IC16
/// ones, or success if there is none.
pub open spec fn check_outcome(
    s: StateView,
    ke: Seq<u64>,
    kc: Seq<u64>,
    kd: Seq<u64>,
    r: Result<(), Vec<InvariantViolation>>,
) -> bool {
    let g6 = ic6_seq(s, ke);
    let g10 = ic10_seq(s, kc);
    let g16 = ic16_seq(s, kd);
    let es = evidences_in(s, ke);
    match first_cyclic(es, 0) {
        None => if g6.len() + g10.len() + g16.len() == 0 {
            r is Ok
        } else {
            r matches Err(v) && v@ == g6 + g10 + g16
        },
        Some(i) => r matches Err(v) && {
            &&& v@.len() == g6.len() + 1 + g10.len() + g16.len()
            &&& v@.take(g6.len() as int) == g6
            &&& v@.skip(g6.len() + 1int) == g10 + g16
            &&& ic8_outcome(es, Err(v@[g6.len() as int]))
        },
    }
}

proof fn lemma_add_new_contains(acc: Seq<u64>, xs: Seq<u64>, x: u64)
    ensures
        add_new(acc, xs).contains(x) <==> acc.contains(x) || xs.contains(x),
    decreases xs.len(),
{
    if xs.len() > 0 {
        let d = xs.drop_last();
        lemma_add_new_contains(acc, d, x);
        let a = add_new(acc, d);
        if d.contains(x) {
            let i = choose|i: int| 0 <= i < d.len() && d[i] == x;
            assert(xs[i] == x);
        }
        if xs.contains(x) && !d.contains(x) {
            let i = choose|i: int| 0 <= i < xs.len() && xs[i] == x;
            if i < d.len() {
                assert(d[i] == x);
            }
            assert(x == xs.last());
        }
        if !a.contains(xs.last()) {
            assert(a.push(xs.last())[a.len() as int] == xs.last());
            if a.contains(x) {
                let i = choose|i: int| 0 <= i < a.len() && a[i] == x;
                assert(a.push(xs.last())[i] == x);
            }
            if a.push(xs.last()).contains(x) {
                let i = choose|i: int| 0 <= i < a.len() + 1 && a.push(xs.last())[i] == x;
                if i < a.len() {
                    assert(a[i] == x);
                }
            }
        }
    }
}

/// The evidences a decision traces to include every evidence cited by the
/// claim of each of its known beliefs, whatever its position.
proof fn lemma_trace_complete(s: StateView, bids: Seq<u64>, k: int, ev: u64)
    requires
        0 <= k < bids.len(),
        s.beliefs.contains_key(bids[k]),
        s.claims.contains_key(s.beliefs[bids[k]].claim_id),
        s.claims[s.beliefs[bids[k]].claim_id].evidence_ids@.contains(ev),
    ensures
        trace_seq(s, bids).contains(ev),
    decreases bids.len(),
{
    let d = bids.drop_last();
    let b = bids.last();
    if k == bids.len() - 1 {
        lemma_add_new_contains(trace_seq(s, d), s.claims[s.beliefs[b].claim_id].evidence_ids@, ev);
    } else {
        assert(d[k] == bids[k]);
        lemma_trace_complete(s, d, k, ev);
        if s.beliefs.contains_key(b) && s.claims.contains_key(s.beliefs[b].claim_id) {
            lemma_add_new_contains(trace_seq(s, d), s.claims[s.beliefs[b].claim_id].evidence_ids@, ev);
        }
    }
}

proof fn lemma_missing_complete(s: StateView, did: DecisionID, tr: Seq<u64>, ev: u64)
    requires
        tr.contains(ev),
        !s.evidences.contains_key(ev),
    ensures
        missing_of(s, did, tr).contains(
            InvariantViolation::Ic16UntraceableDecision { decision_id: did, missing_evidence: ev },
        ),
    decreases tr.len(),
{
    let v = InvariantViolation::Ic16UntraceableDecision { decision_id: did, missing_evidence: ev };
    let d = tr.drop_last();
    let prev = missing_of(s, did, d);
    let i = choose|i: int| 0 <= i < tr.len() && tr[i] == ev;
    if i == tr.len() - 1 {
        assert(missing_of(s, did, tr) == prev.push(v));
        assert(prev.push(v)[prev.len() as int] == v);
    } else {
        assert(d[i] == ev);
        lemma_missing_complete(s, did, d, ev);
        let m = choose|m: int| 0 <= m < prev.len() && prev[m] == v;
        if !s.evidences.contains_key(tr.last()) {
            assert(missing_of(s, did, tr)[m] == v);
        }
    }
}

proof fn lemma_ic16_complete(s: StateView, ks: Seq<u64>, k: int, x: InvariantViolation)
    requires
        0 <= k < ks.len(),
        missing_of(s, ks[k], trace_seq(s, s.decisions[ks[k]].belief_ids@)).contains(x),
    ensures
        ic16_seq(s, ks).contains(x),
    decreases ks.len(),
{
    let d = ks.drop_last();
    let prev = ic16_seq(s, d);
    let last = missing_of(s, ks.last(), trace_seq(s, s.decisions[ks.last()].belief_ids@));
    if k == ks.len() - 1 {
        let m = choose|m: int| 0 <= m < last.len() && last[m] == x;
        assert((prev + last)[prev.len() + m] == x);
    } else {
        assert(d[k] == ks[k]);
        lemma_ic16_complete(s, d, k, x);
        let m = choose|m: int| 0 <= m < prev.len() && prev[m] == x;
        assert((prev + last)[m] == x);
    }
}

/// IC16 is checked against every belief of a decision: when any belief of
/// a decision rests on a claim citing an unknown evidence, the check fails
/// and reports that decision and that evidence. `ke`, `kc`, `kd` are the
/// orders in which `check_invariants` walked the maps.
pub proof fn law_untraceable_decision_is_reported(
    s: StateView,
    ke: Seq<u64>,
    kc: Seq<u64>,
    kd: Seq<u64>,
    r: Result<(), Vec<InvariantViolation>>,
    did: DecisionID,
    belief: u64,
    ev: u64,
)
    requires
        key_order(kd, s.decisions),
        check_outcome(s, ke, kc, kd, r),
        s.decisions.contains_key(did),
        s.decisions[did].belief_ids@.contains(belief),
        s.beliefs.contains_key(belief),
        s.claims.contains_key(s.beliefs[belief].claim_id),
        s.claims[s.beliefs[belief].claim_id].evidence_ids@.contains(ev),
        !s.evidences.contains_key(ev),
    ensures
        r matches Err(v) && v@.contains(
            InvariantViolation::Ic16UntraceableDecision { decision_id: did, missing_evidence: ev },
        ),
{
    let x = InvariantViolation::Ic16UntraceableDecision { decision_id: did, missing_evidence: ev };
    let bids = s.decisions[did].belief_ids@;
    let bk = choose|bk: int| 0 <= bk < bids.len() && bids[bk] == belief;
    lemma_trace_complete(s, bids, bk, ev);
    lemma_missing_complete(s, did, trace_seq(s, bids), ev);
    assert(kd.to_set().contains(did));
    let k = choose|k: int| 0 <= k < kd.len() && kd[k] == did;
    lemma_ic16_complete(s, kd, k, x);
    let g6 = ic6_seq(s, ke);
    let g10 = ic10_seq(s, kc);
    let g16 = ic16_seq(s, kd);
    let m = choose|m: int| 0 <= m < g16.len() && g16[m] == x;
    let es = evidences_in(s, ke);
    match first_cyclic(es, 0) {
        None => {
            let v = r->Err_0;
            assert((g6 + g10 + g16)[g6.len() + g10.len() + m] == x);
            assert(v@[g6.len() + g10.len() + m] == x);
        },
        Some(_) => {
            let v = r->Err_0;
            assert((g10 + g16)[g10.len() + m] == x);
            assert(v@.skip(g6.len() + 1int)[g10.len() + m] == x);
            assert(v@[g6.len() + 1 + g10.len() + m] == x);
        },
    }
}

fn contains_id(v: &Vec<u64>, x: u64) -> (r: bool)
    ensures
        r == v@.contains(x),
{
    let mut i: usize = 0;
    while i < v.len()
        invariant
            0 <= i <= v@.len(),
            forall|m: int| 0 <= m < i ==> v@[m] != x,
        decreases v@.len() - i,
    {
        if v[i] == x {
            return true;
        }
        i += 1;
    }
    false
}

fn trace_set(s: &State, d: &Decision) -> (r: Vec<u64>)
    ensures
        r@ == trace_seq(s@, d.belief_ids@),
{
    let mut evs: Vec<u64> = Vec::new();
    let bids = &d.belief_ids;
    let mut i: usize = 0;
    assert(bids@.take(0) =~= Seq::<u64>::empty());
    while i < bids.len()
        invariant
            bids == &d.belief_ids,
            0 <= i <= bids@.len(),
            evs@ == trace_seq(s@, bids@.take(i as int)),
        decreases bids@.len() - i,
    {
        let ghost acc = evs@;
        assert(bids@.take(i as int + 1).drop_last() =~= bids@.take(i as int));
        if let Some(b) = s.beliefs.get(&bids[i]) {
            if let Some(c) = s.claims.get(&b.claim_id) {
                let eids = &c.evidence_ids;
                let mut j: usize = 0;
                assert(eids@.take(0) =~= Seq::<u64>::empty());
                while j < eids.len()
                    invariant
                        0 <= j <= eids@.len(),
                        evs@ == add_new(acc, eids@.take(j as int)),
                    decreases eids@.len() - j,
                {
                    assert(eids@.take(j as int + 1).drop_last() =~= eids@.take(j as int));
                    if !contains_id(&evs, eids[j]) {
                        evs.push(eids[j]);
                    }
                    j += 1;
                }
                assert(eids@.take(eids@.len() as int) =~= eids@);
            }
        }
        i += 1;
    }
    assert(bids@.take(bids@.len() as int) =~= bids@);
    evs
}

/// Every constraint, the maps walked in the given orders; see
/// `check_outcome`.
pub fn check_invariants_in_order(s: &State, ke: &Vec<u64>, kc: &Vec<u64>, kd: &Vec<u64>) -> (r: Result<
    (),
    Vec<InvariantViolation>,
>)
    requires
        key_order(ke@, s@.evidences),
        key_order(kc@, s@.claims),
        key_order(kd@, s@.decisions),
    ensures
        check_outcome(s@, ke@, kc@, kd@, r),
{
    let mut violations: Vec<InvariantViolation> = Vec::new();

    let mut i: usize = 0;
    assert(ke@.take(0) =~= Seq::<u64>::empty());
    while i < ke.len()
        invariant
            key_order(ke@, s@.evidences),
            0 <= i <= ke@.len(),
            violations@ == ic6_seq(s@, ke@.take(i as int)),
        decreases ke@.len() - i,
    {
        assert(ke@.take(i as int + 1).drop_last() =~= ke@.take(i as int));
        assert(ke@.to_set().contains(ke@[i as int]));
        let ev = s.evidences.get(&ke[i]).unwrap();
        if !s.artifacts.contains_key(&ev.artifact_id) {
            violations.push(
                InvariantViolation::Ic6MissingArtifact {
                    evidence_id: ke[i],
                    artifact_id: ev.artifact_id,
                },
            );
        }
        i += 1;
    }
    assert(ke@.take(ke@.len() as int) =~= ke@);
    let ghost g6 = violations@;

    let r8 = ic8_in_order(s, ke);
    let ghost r8g = r8;
    if let Err(e) = r8 {
        violations.push(e);
    }
    let ghost g68 = violations@;

    let mut i: usize = 0;
    assert(kc@.take(0) =~= Seq::<u64>::empty());
    while i < kc.len()
        invariant
            key_order(kc@, s@.claims),
            0 <= i <= kc@.len(),
            violations@ == g68 + ic10_seq(s@, kc@.take(i as int)),
        decreases kc@.len() - i,
    {
        assert(kc@.take(i as int + 1).drop_last() =~= kc@.take(i as int));
        assert(kc@.to_set().contains(kc@[i as int]));
        let cl = s.claims.get(&kc[i]).unwrap();
        if cl.evidence_ids.len() == 0 {
            violations.push(InvariantViolation::Ic10EmptyClaim { claim_id: kc[i] });
        }
        i += 1;
    }
    assert(kc@.take(kc@.len() as int) =~= kc@);
    let ghost g6810 = violations@;

    let mut i: usize = 0;
    assert(kd@.take(0) =~= Seq::<u64>::empty());
    while i < kd.len()
        invariant
            key_order(kd@, s@.decisions),
            0 <= i <= kd@.len(),
            violations@ == g6810 + ic16_seq(s@, kd@.take(i as int)),
        decreases kd@.len() - i,
    {
        assert(kd@.take(i as int + 1).drop_last() =~= kd@.take(i as int));
        assert(kd@.to_set().contains(kd@[i as int]));
        let did = kd[i];
        let d = s.decisions.get(&did).unwrap();
        let tr = trace_set(s, d);
        let ghost before = violations@;
        let mut j: usize = 0;
        assert(tr@.take(0) =~= Seq::<u64>::empty());
        while j < tr.len()
            invariant
                0 <= j <= tr@.len(),
                violations@ == before + missing_of(s@, did, tr@.take(j as int)),
            decreases tr@.len() - j,
        {
            assert(tr@.take(j as int + 1).drop_last() =~= tr@.take(j as int));
            if !s.evidences.contains_key(&tr[j]) {
                violations.push(
                    InvariantViolation::Ic16UntraceableDecision {
                        decision_id: did,
                        missing_evidence: tr[j],
                    },
                );
            }
            j += 1;
        }
        assert(tr@.take(tr@.len() as int) =~= tr@);
        i += 1;
    }
    assert(kd@.take(kd@.len() as int) =~= kd@);
    proof {
        let g10 = ic10_seq(s@, kc@);
        let g16 = ic16_seq(s@, kd@);
        assert(violations@ =~= g68 + g10 + g16);
        match r8g {
            Err(e) => {
                assert(g68 =~= g6.push(e));
                assert(violations@.take(g6.len() as int) =~= g6);
                assert(violations@.skip(g6.len() + 1int) =~= g10 + g16);
                assert(violations@[g6.len() as int] == e);
            },
            Ok(_) => {
                assert(g68 =~= g6);
            },
        }
    }
    if violations.len() == 0 {
        Ok(())
    } else {
        Err(violations)
    }
}

/// Checks every constraint; the maps are walked in the order they choose.
pub fn check_invariants(s: &State) -> (r: Result<(), Vec<InvariantViolation>>)
    ensures
        exists|ke: Seq<u64>, kc: Seq<u64>, kd: Seq<u64>|
            key_order(ke, s@.evidences) && key_order(kc, s@.claims) && key_order(kd, s@.decisions)
                && #[trigger] check_outcome(s@, ke, kc, kd, r),
{
    let ke = keys_of(&s.evidences);
    let kc = keys_of(&s.claims);
    let kd = keys_of(&s.decisions);
    let r = check_invariants_in_order(s, &ke, &kc, &kd);
    assert(check_outcome(s@, ke@, kc@, kd@, r));
    r
}

// ---------------------------------------------------------------------------
// Referential integrity
// ---------------------------------------------------------------------------

/// Every reference of the state resolves: evidences cite known artifacts,
/// claims cite at least one evidence and only known ones, beliefs rest on
/// known claims and decisions on known beliefs.
pub open spec fn referentially_intact(s: StateView) -> bool {
    &&& forall|eid: EvidenceID| #[trigger] s.evidences.contains_key(eid)
        ==> s.artifacts.contains_key(s.evidences[eid].artifact_id)
    &&& forall|cid: ClaimID| #[trigger] s.claims.contains_key(cid)
        ==> s.claims[cid].evidence_ids@.len() > 0 && all_known(s.claims[cid].evidence_ids@, s.evidences)
    &&& forall|bid: u64| #[trigger] s.beliefs.contains_key(bid)
        ==> s.claims.contains_key(s.beliefs[bid].claim_id)
    &&& forall|did: DecisionID| #[trigger] s.decisions.contains_key(did)
        ==> all_known(s.decisions[did].belief_ids@, s.beliefs)
}

/// The empty state is referentially intact.
pub proof fn law_empty_state_is_intact(s: State)
    requires
        s@.artifacts == Map::<ArtifactID, crate::arkhe_core::types::Artifact>::empty(),
        s@.evidences == Map::<EvidenceID, Evidence>::empty(),
        s@.claims == Map::<ClaimID, crate::arkhe_core::types::Claim>::empty(),
        s@.beliefs == Map::<u64, crate::arkhe_core::types::Belief>::empty(),
        s@.decisions == Map::<DecisionID, Decision>::empty(),
    ensures
        referentially_intact(s@),
        hashes_distinct(s@.evidences),
        parents_resolve(s@.evidences),
        chains_acyclic(s@.evidences),
{
}

/// Every transition that succeeds keeps the state referentially intact.
pub proof fn law_transitions_keep_integrity(
    s: StateView,
    event: Event,
    r: Result<StateView, TransitionError>,
)
    requires
        referentially_intact(s),
        event_applied(s, event, r),
        r is Ok,
    ensures
        referentially_intact(r->Ok_0),
{
    let s2 = r->Ok_0;
    match event {
        Event::ArtifactAdded(id, payload, metadata) => {
            assert forall|eid: EvidenceID| #[trigger] s2.evidences.contains_key(eid) implies s2.artifacts.contains_key(
                s2.evidences[eid].artifact_id,
            ) by {
                assert(s.artifacts.contains_key(s.evidences[eid].artifact_id));
            }
        },
        Event::EvidenceAdded(id, art_id, content, sig, ts, ph) => {
            assert forall|cid: ClaimID| #[trigger] s2.claims.contains_key(cid) implies all_known(
                s2.claims[cid].evidence_ids@,
                s2.evidences,
            ) by {
                assert(all_known(s.claims[cid].evidence_ids@, s.evidences));
                let ids = s2.claims[cid].evidence_ids@;
                assert forall|i: int| 0 <= i < ids.len() implies s2.evidences.contains_key(#[trigger] ids[i]) by {
                    assert(s.evidences.contains_key(ids[i]));
                }
            }
        },
        Event::ClaimAdded(id, prop, evs) => {
            assert forall|bid: u64| #[trigger] s2.beliefs.contains_key(bid) implies s2.claims.contains_key(
                s2.beliefs[bid].claim_id,
            ) by {
                assert(s.claims.contains_key(s.beliefs[bid].claim_id));
            }
        },
        Event::BeliefAdded(id, cid, conf, just) => {
            assert forall|did: DecisionID| #[trigger] s2.decisions.contains_key(did) implies all_known(
                s2.decisions[did].belief_ids@,
                s2.beliefs,
            ) by {
                assert(all_known(s.decisions[did].belief_ids@, s.beliefs));
                let ids = s2.decisions[did].belief_ids@;
                assert forall|i: int| 0 <= i < ids.len() implies s2.beliefs.contains_key(#[trigger] ids[i]) by {
                    assert(s.beliefs.contains_key(ids[i]));
                }
            }
        },
        Event::DecisionAdded(id, goal, bids, ts) => {},
    }
}

/// Adding an artifact with any hasher keeps the state referentially
/// intact: integrity does not depend on the digest.
pub proof fn law_hashed_artifact_keeps_integrity(
    s: StateView,
    id: ArtifactID,
    payload: Payload,
    metadata: String,
    hashes: spec_fn(Seq<u8>, Seq<u8>) -> bool,
    r: Result<StateView, TransitionError>,
)
    requires
        referentially_intact(s),
        artifact_applied(s, id, payload, metadata, hashes, r),
        r is Ok,
    ensures
        referentially_intact(r->Ok_0),
{
    let d = choose|d: Seq<u8>|
        {
            &&& d.len() == 32
            &&& #[trigger] artifact_added(s, id, payload, metadata, d, r)
            &&& r is Ok ==> hashes(vstd::utf8::encode_utf8(payload@), d)
        };
    let s2 = r->Ok_0;
    assert(artifact_added(s, id, payload, metadata, d, r));
    assert forall|eid: EvidenceID| #[trigger] s2.evidences.contains_key(eid) implies s2.artifacts.contains_key(
        s2.evidences[eid].artifact_id,
    ) by {
        assert(s.artifacts.contains_key(s.evidences[eid].artifact_id));
    }
}

/// Adding evidence with any hasher keeps the state referentially intact:
/// integrity does not depend on the digest.
pub proof fn law_hashed_evidence_keeps_integrity(
    s: StateView,
    id: EvidenceID,
    art_id: ArtifactID,
    content: Payload,
    sig: crate::arkhe_core::types::Hash,
    ts: u64,
    ph: Option<crate::arkhe_core::types::Hash>,
    hashes: spec_fn(Seq<u8>, Seq<u8>) -> bool,
    r: Result<StateView, TransitionError>,
)
    requires
        referentially_intact(s),
        evidence_applied(s, id, art_id, content, sig, ts, ph, hashes, r),
        r is Ok,
    ensures
        referentially_intact(r->Ok_0),
{
    let d = choose|d: Seq<u8>|
        {
            &&& d.len() == 32
            &&& #[trigger] evidence_added(s, id, art_id, content, sig, ts, ph, d, r)
            &&& r is Ok ==> hashes(vstd::utf8::encode_utf8(content@), d)
        };
    let s2 = r->Ok_0;
    assert(evidence_added(s, id, art_id, content, sig, ts, ph, d, r));
    assert forall|cid: ClaimID| #[trigger] s2.claims.contains_key(cid) implies all_known(
        s2.claims[cid].evidence_ids@,
        s2.evidences,
    ) by {
        assert(all_known(s.claims[cid].evidence_ids@, s.evidences));
        let ids = s2.claims[cid].evidence_ids@;
        assert forall|i: int| 0 <= i < ids.len() implies s2.evidences.contains_key(#[trigger] ids[i]) by {
            assert(s.evidences.contains_key(ids[i]));
        }
    }
}

proof fn lemma_ic6_empty(s: StateView, ks: Seq<u64>)
    requires
        referentially_intact(s),
        forall|i: int| 0 <= i < ks.len() ==> s.evidences.contains_key(#[trigger] ks[i]),
    ensures
        ic6_seq(s, ks).len() == 0,
    decreases ks.len(),
{
    if ks.len() > 0 {
        assert(s.evidences.contains_key(ks[ks.len() - 1]));
        lemma_ic6_empty(s, ks.drop_last());
    }
}

proof fn lemma_ic10_empty(s: StateView, ks: Seq<u64>)
    requires
        referentially_intact(s),
        forall|i: int| 0 <= i < ks.len() ==> s.claims.contains_key(#[trigger] ks[i]),
    ensures
        ic10_seq(s, ks).len() == 0,
    decreases ks.len(),
{
    if ks.len() > 0 {
        assert(s.claims.contains_key(ks[ks.len() - 1]));
        lemma_ic10_empty(s, ks.drop_last());
    }
}

proof fn lemma_add_new_known(acc: Seq<u64>, xs: Seq<u64>, m: Map<u64, Evidence>)
    requires
        all_known(acc, m),
        all_known(xs, m),
    ensures
        all_known(add_new(acc, xs), m),
    decreases xs.len(),
{
    if xs.len() > 0 {
        assert(m.contains_key(xs[xs.len() - 1]));
        let ys = xs.drop_last();
        assert forall|i: int| 0 <= i < ys.len() implies m.contains_key(#[trigger] ys[i]) by {
            assert(ys[i] == xs[i]);
        }
        lemma_add_new_known(acc, ys, m);
    }
}

proof fn lemma_trace_known(s: StateView, bids: Seq<u64>)
    requires
        referentially_intact(s),
    ensures
        all_known(trace_seq(s, bids), s.evidences),
    decreases bids.len(),
{
    if bids.len() > 0 {
        lemma_trace_known(s, bids.drop_last());
        let b = bids.last();
        if s.beliefs.contains_key(b) && s.claims.contains_key(s.beliefs[b].claim_id) {
            lemma_add_new_known(
                trace_seq(s, bids.drop_last()),
                s.claims[s.beliefs[b].claim_id].evidence_ids@,
                s.evidences,
            );
        }
    }
}

proof fn lemma_missing_empty(s: StateView, did: DecisionID, tr: Seq<u64>)
    requires
        all_known(tr, s.evidences),
    ensures
        missing_of(s, did, tr).len() == 0,
    decreases tr.len(),
{
    if tr.len() > 0 {
        assert(s.evidences.contains_key(tr[tr.len() - 1]));
        let t2 = tr.drop_last();
        assert forall|i: int| 0 <= i < t2.len() implies s.evidences.contains_key(#[trigger] t2[i]) by {
            assert(t2[i] == tr[i]);
        }
        lemma_missing_empty(s, did, t2);
    }
}

proof fn lemma_ic16_empty(s: StateView, ks: Seq<u64>)
    requires
        referentially_intact(s),
    ensures
        ic16_seq(s, ks).len() == 0,
    decreases ks.len(),
{
    if ks.len() > 0 {
        let did = ks.last();
        lemma_ic16_empty(s, ks.drop_last());
        lemma_trace_known(s, s.decisions[did].belief_ids@);
        lemma_missing_empty(s, did, trace_seq(s, s.decisions[did].belief_ids@));
    }
}

/// A referentially intact state breaks none of IC6, IC10 and IC16, in
/// whatever order its maps are walked: checking it reports at most the
/// IC8 violation.
pub proof fn law_intact_state_passes_ic6_ic10_ic16(s: StateView, ke: Seq<u64>, kc: Seq<u64>, kd: Seq<u64>)
    requires
        referentially_intact(s),
        key_order(ke, s.evidences),
        key_order(kc, s.claims),
        key_order(kd, s.decisions),
    ensures
        ic6_seq(s, ke).len() == 0,
        ic10_seq(s, kc).len() == 0,
        ic16_seq(s, kd).len() == 0,
{
    assert forall|i: int| 0 <= i < ke.len() implies s.evidences.contains_key(#[trigger] ke[i]) by {
        assert(ke.to_set().contains(ke[i]));
    }
    assert forall|i: int| 0 <= i < kc.len() implies s.claims.contains_key(#[trigger] kc[i]) by {
        assert(kc.to_set().contains(kc[i]));
    }
    lemma_ic6_empty(s, ke);
    lemma_ic10_empty(s, kc);
    lemma_ic16_empty(s, kd);
}

// ---------------------------------------------------------------------------
// Acyclic chains under fresh hashes
// ---------------------------------------------------------------------------

/// No two evidences share a hash.
pub open spec fn hashes_distinct(m: Map<EvidenceID, Evidence>) -> bool {
    forall|k1: EvidenceID, k2: EvidenceID|
        #![trigger m[k1], m[k2]]
        m.contains_key(k1) && m.contains_key(k2) && k1 != k2 ==> m[k1].hash@ != m[k2].hash@
}

/// Every parent hash is the hash of a recorded evidence.
pub open spec fn parents_resolve(m: Map<EvidenceID, Evidence>) -> bool {
    forall|k: EvidenceID|
        #[trigger] m.contains_key(k) && m[k].parent_hash is Some ==> evidence_hashed(
            m,
            m[k].parent_hash->0@,
        )
}

/// The evidence whose hash is `h`, if any.
pub open spec fn hashed_by(m: Map<EvidenceID, Evidence>, h: Seq<char>) -> Option<EvidenceID> {
    if evidence_hashed(m, h) {
        Some(choose|k: EvidenceID| #[trigger] m.contains_key(k) && m[k].hash@ == h)
    } else {
        None
    }
}

/// The `k`-th hash of the chain from `start` in the map itself.
pub open spec fn map_chain(m: Map<EvidenceID, Evidence>, start: Option<Seq<char>>, k: nat) -> Option<
    Seq<char>,
>
    decreases k,
{
    if k == 0 {
        start
    } else {
        match map_chain(m, start, (k - 1) as nat) {
            Some(h) => match hashed_by(m, h) {
                Some(key) => parent_of(m[key]),
                None => None,
            },
            None => None,
        }
    }
}

/// The chain from `start` in the map comes back to a hash it went through.
pub open spec fn map_cyclic(m: Map<EvidenceID, Evidence>, start: Option<Seq<char>>) -> bool {
    exists|k: nat, j: nat|
        j < k && (#[trigger] map_chain(m, start, k)) is Some && #[trigger] map_chain(m, start, j)
            == map_chain(m, start, k)
}

/// No evidence's chain of parents comes back on itself.
pub open spec fn chains_acyclic(m: Map<EvidenceID, Evidence>) -> bool {
    forall|key: EvidenceID| #[trigger] m.contains_key(key) ==> !map_cyclic(m, parent_of(m[key]))
}

proof fn lemma_first_hashed_found(es: Seq<(EvidenceID, Evidence)>, h: Seq<char>, i: int, t: int)
    requires
        0 <= i <= t < es.len(),
        es[t].1.hash@ == h,
    ensures
        first_hashed_from(es, h, i) is Some,
    decreases t - i,
{
    if es[i].1.hash@ != h {
        lemma_first_hashed_found(es, h, i + 1, t);
    }
}

/// In a listing of a map whose hashes are distinct, the first evidence
/// with a hash is the map's only one.
proof fn lemma_listing_lookup(s: StateView, ks: Seq<u64>, h: Seq<char>)
    requires
        key_order(ks, s.evidences),
        hashes_distinct(s.evidences),
    ensures
        match first_hashed_from(evidences_in(s, ks), h, 0) {
            Some(i) => hashed_by(s.evidences, h) matches Some(key) && evidences_in(s, ks)[i].1
                == s.evidences[key],
            None => hashed_by(s.evidences, h) is None,
        },
{
    let es = evidences_in(s, ks);
    let m = s.evidences;
    lemma_first_hashed_range(es, h, 0);
    match first_hashed_from(es, h, 0) {
        Some(i) => {
            assert(ks.to_set().contains(ks[i]));
            assert(m.contains_key(ks[i]) && m[ks[i]].hash@ == h);
            let key = choose|k: EvidenceID| #[trigger] m.contains_key(k) && m[k].hash@ == h;
            if key != ks[i] {
                assert(m[key].hash@ != m[ks[i]].hash@);
            }
        },
        None => {
            if evidence_hashed(m, h) {
                let key = choose|k: EvidenceID| #[trigger] m.contains_key(k) && m[k].hash@ == h;
                assert(ks.to_set().contains(key));
                let t = choose|t: int| 0 <= t < ks.len() && ks[t] == key;
                lemma_first_hashed_found(es, h, 0, t);
            }
        },
    }
}

/// With distinct hashes, a chain does not depend on the listing.
proof fn lemma_chain_listing(s: StateView, ks: Seq<u64>, start: Option<Seq<char>>, k: nat)
    requires
        key_order(ks, s.evidences),
        hashes_distinct(s.evidences),
    ensures
        chain(evidences_in(s, ks), start, k) == map_chain(s.evidences, start, k),
    decreases k,
{
    if k > 0 {
        lemma_chain_listing(s, ks, start, (k - 1) as nat);
        match map_chain(s.evidences, start, (k - 1) as nat) {
            Some(h) => {
                lemma_listing_lookup(s, ks, h);
            },
            None => {},
        }
    }
}

proof fn lemma_no_cyclic_from(es: Seq<(EvidenceID, Evidence)>, i: int)
    requires
        0 <= i,
        forall|j: int| i <= j < es.len() ==> !cyclic(es, parent_of(#[trigger] es[j].1)),
    ensures
        first_cyclic(es, i) is None,
    decreases es.len() - i,
{
    if i < es.len() {
        lemma_no_cyclic_from(es, i + 1);
    }
}

/// Where hashes are distinct and no chain comes back on itself, IC8 finds
/// nothing, in whatever order the evidences are walked.
pub proof fn law_acyclic_chains_pass_ic8(s: StateView, ks: Seq<u64>)
    requires
        hashes_distinct(s.evidences),
        chains_acyclic(s.evidences),
        key_order(ks, s.evidences),
    ensures
        first_cyclic(evidences_in(s, ks), 0) is None,
{
    let es = evidences_in(s, ks);
    assert forall|j: int| 0 <= j < es.len() implies !cyclic(es, parent_of(#[trigger] es[j].1)) by {
        let start = parent_of(es[j].1);
        assert(ks.to_set().contains(ks[j]));
        assert(s.evidences.contains_key(ks[j]));
        if cyclic(es, start) {
            let k = choose|k: nat| #[trigger] repeats_at(es, start, k);
            let j2 = choose|j2: nat| j2 < k && #[trigger] chain(es, start, j2) == chain(es, start, k);
            lemma_chain_listing(s, ks, start, k);
            lemma_chain_listing(s, ks, start, j2);
            assert(map_chain(s.evidences, start, k) is Some);
            assert(map_chain(s.evidences, start, j2) == map_chain(s.evidences, start, k));
            assert(map_cyclic(s.evidences, start));
        }
    }
    lemma_no_cyclic_from(es, 0);
}

/// A chain from a resolving start never meets the fresh hash, so adding
/// the evidence that carries it changes nothing along the chain.
proof fn lemma_chain_unchanged(
    m: Map<EvidenceID, Evidence>,
    m2: Map<EvidenceID, Evidence>,
    id: EvidenceID,
    hn: Seq<char>,
    start: Option<Seq<char>>,
    k: nat,
)
    requires
        hashes_distinct(m),
        parents_resolve(m),
        !m.contains_key(id),
        m2 == m.insert(id, m2[id]),
        m2[id].hash@ == hn,
        !evidence_hashed(m, hn),
        start matches Some(h) ==> evidence_hashed(m, h),
    ensures
        map_chain(m2, start, k) == map_chain(m, start, k),
        map_chain(m, start, k) matches Some(h) ==> evidence_hashed(m, h),
    decreases k,
{
    if k > 0 {
        lemma_chain_unchanged(m, m2, id, hn, start, (k - 1) as nat);
        match map_chain(m, start, (k - 1) as nat) {
            Some(h) => {
                let key = choose|k0: EvidenceID| #[trigger] m.contains_key(k0) && m[k0].hash@ == h;
                assert(m2.contains_key(key) && m2[key].hash@ == h);
                assert(evidence_hashed(m2, h));
                let key2 = choose|k0: EvidenceID| #[trigger] m2.contains_key(k0) && m2[k0].hash@ == h;
                if key2 == id {
                    assert(h == hn);
                } else {
                    assert(m.contains_key(key2));
                    if key2 != key {
                        assert(m[key2].hash@ != m[key].hash@);
                    }
                }
                assert(hashed_by(m2, h) == Some(key));
                assert(hashed_by(m, h) == Some(key));
            },
            None => {},
        }
    }
}

proof fn lemma_map_chain_ends(m: Map<EvidenceID, Evidence>, start: Option<Seq<char>>, k: nat, n: nat)
    requires
        map_chain(m, start, k) is None,
        k <= n,
    ensures
        map_chain(m, start, n) is None,
    decreases n - k,
{
    if k < n {
        lemma_map_chain_ends(m, start, k, (n - 1) as nat);
    }
}

/// The chain from a hash continues as the chain of the evidence carrying it.
proof fn lemma_map_chain_shift(m: Map<EvidenceID, Evidence>, h0: Seq<char>, key: EvidenceID, k: nat)
    requires
        hashed_by(m, h0) == Some(key),
    ensures
        map_chain(m, Some(h0), k + 1) == map_chain(m, parent_of(m[key]), k),
    decreases k,
{
    if k == 0 {
        assert(map_chain(m, Some(h0), 0) == Some(h0));
        assert(map_chain(m, Some(h0), 1) == parent_of(m[key]));
    } else {
        lemma_map_chain_shift(m, h0, key, (k - 1) as nat);
        assert(map_chain(m, Some(h0), k + 1) == match map_chain(m, Some(h0), k) {
            Some(h) => match hashed_by(m, h) {
                Some(key2) => parent_of(m[key2]),
                None => None,
            },
            None => None,
        });
    }
}

/// Adding an evidence whose hash is fresh and whose parent is recorded
/// keeps the hashes distinct, the parents resolving and every chain
/// acyclic.
proof fn lemma_fresh_evidence_keeps_chains(
    m: Map<EvidenceID, Evidence>,
    m2: Map<EvidenceID, Evidence>,
    id: EvidenceID,
)
    requires
        hashes_distinct(m),
        parents_resolve(m),
        chains_acyclic(m),
        !m.contains_key(id),
        m2 == m.insert(id, m2[id]),
        !evidence_hashed(m, m2[id].hash@),
        m2[id].parent_hash matches Some(p) ==> evidence_hashed(m, p@),
    ensures
        hashes_distinct(m2),
        parents_resolve(m2),
        chains_acyclic(m2),
{
    let hn = m2[id].hash@;
    assert forall|k1: EvidenceID, k2: EvidenceID|
        #![trigger m2[k1], m2[k2]]
        m2.contains_key(k1) && m2.contains_key(k2) && k1 != k2 implies m2[k1].hash@ != m2[k2].hash@ by {
        if k1 == id {
            assert(m.contains_key(k2));
        } else if k2 == id {
            assert(m.contains_key(k1));
        } else {
            assert(m[k1] == m2[k1] && m[k2] == m2[k2]);
        }
    }
    assert forall|k: EvidenceID|
        #[trigger] m2.contains_key(k) && m2[k].parent_hash is Some implies evidence_hashed(
            m2,
            m2[k].parent_hash->0@,
        ) by {
        let p = m2[k].parent_hash->0@;
        if k != id {
            assert(m.contains_key(k) && m[k] == m2[k]);
        }
        assert(evidence_hashed(m, p));
        let w = choose|w: EvidenceID| #[trigger] m.contains_key(w) && m[w].hash@ == p;
        assert(m2.contains_key(w) && m2[w].hash@ == p);
    }
    assert forall|key: EvidenceID| #[trigger] m2.contains_key(key) implies !map_cyclic(
        m2,
        parent_of(m2[key]),
    ) by {
        let start = parent_of(m2[key]);
        if key != id {
            assert(m.contains_key(key) && m[key] == m2[key]);
            assert(start matches Some(h) ==> evidence_hashed(m, h));
            if map_cyclic(m2, start) {
                let (k, j) = choose|k: nat, j: nat|
                    j < k && (#[trigger] map_chain(m2, start, k)) is Some && #[trigger] map_chain(
                        m2,
                        start,
                        j,
                    ) == map_chain(m2, start, k);
                lemma_chain_unchanged(m, m2, id, hn, start, k);
                lemma_chain_unchanged(m, m2, id, hn, start, j);
                assert(map_cyclic(m, start));
            }
        } else {
            assert(start matches Some(h) ==> evidence_hashed(m, h));
            if map_cyclic(m2, start) {
                let (k, j) = choose|k: nat, j: nat|
                    j < k && (#[trigger] map_chain(m2, start, k)) is Some && #[trigger] map_chain(
                        m2,
                        start,
                        j,
                    ) == map_chain(m2, start, k);
                lemma_chain_unchanged(m, m2, id, hn, start, k);
                lemma_chain_unchanged(m, m2, id, hn, start, j);
                if start is None {
                    lemma_map_chain_ends(m2, start, 0, k);
                }
                let h0 = start->0;
                assert(evidence_hashed(m, h0));
                let y = hashed_by(m, h0)->0;
                assert(m.contains_key(y) && m[y].hash@ == h0);
                let ys = parent_of(m[y]);
                lemma_map_chain_shift(m, h0, y, (k - 1) as nat);
                if j > 0 {
                    lemma_map_chain_shift(m, h0, y, (j - 1) as nat);
                    assert(map_chain(m, ys, (k - 1) as nat) is Some);
                    assert(map_chain(m, ys, (j - 1) as nat) == map_chain(m, ys, (k - 1) as nat));
                    assert(map_cyclic(m, ys));
                } else {
                    lemma_map_chain_shift(m, h0, y, k);
                    assert(map_chain(m, ys, (k - 1) as nat) == Some(h0));
                    assert(map_chain(m, ys, k) == ys);
                    if ys is None {
                        lemma_map_chain_ends(m, ys, 0, (k - 1) as nat);
                    }
                    assert(map_chain(m, ys, k) is Some);
                    assert(map_chain(m, ys, 0) == map_chain(m, ys, k));
                    assert(map_cyclic(m, ys));
                }
                assert(m.contains_key(y));
            }
        }
    }
}

/// Chains stay acyclic along transitions while every new evidence's hash
/// is fresh: a transition that succeeds keeps the hashes distinct, the
/// parents resolving and no chain coming back on itself.
pub proof fn law_fresh_hashes_keep_chains_acyclic(
    s: StateView,
    event: Event,
    r: Result<StateView, TransitionError>,
)
    requires
        hashes_distinct(s.evidences),
        parents_resolve(s.evidences),
        chains_acyclic(s.evidences),
        event_applied(s, event, r),
        r is Ok,
        event matches Event::EvidenceAdded(id, a, content, sig, ts, ph) ==> !evidence_hashed(
            s.evidences,
            digest_text(identity_digest_of(content@)),
        ),
    ensures
        hashes_distinct(r->Ok_0.evidences),
        parents_resolve(r->Ok_0.evidences),
        chains_acyclic(r->Ok_0.evidences),
{
    match event {
        Event::EvidenceAdded(id, art_id, content, sig, ts, ph) => {
            let m2 = r->Ok_0.evidences;
            lemma_fresh_evidence_keeps_chains(s.evidences, m2, id);
        },
        _ => {},
    }
}

} // verus!
