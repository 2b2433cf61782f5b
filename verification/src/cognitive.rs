//! The cognitive layer: gradient proofs and their verification, the
//! aggregators that combine gradients, and reflection over the system's
//! state.
use vstd::prelude::*;
use std::sync::Arc;

verus! {

/// A STARK proof of a gradient with its signature.
pub struct GradientProof {
    pub proof_bytes: Vec<u8>,
    pub signature: Vec<u8>,
}

/// Checks the STARK proof of a gradient. Verification is mocked: every
/// proof is accepted.
pub fn verify_gradient(proof: &GradientProof) -> (r: Result<bool, String>)
    ensures
        r == Ok::<bool, String>(true),
{
    Ok(true)
}

/// Whether a gradient's proof holds.
pub fn validate_gradient(proof: &GradientProof) -> (r: bool)
    ensures
        r,
{
    match verify_gradient(proof) {
        Ok(b) => b,
        Err(_) => false,
    }
}

/// The coordinator that stands in for a federated aggregation round.
pub struct MockCoordinator {}

impl MockCoordinator {
    pub fn new() -> (r: Self) {
        MockCoordinator {}
    }
}

/// Federated aggregation of gradients (Xaynet).
pub struct XaynetAggregator {}

impl XaynetAggregator {
    pub fn new() -> (r: Self) {
        XaynetAggregator {}
    }
}

/// Homomorphic aggregation of encrypted gradients.
pub struct FHEEngine {}

impl FHEEngine {
    pub fn new() -> (r: Self) {
        FHEEngine {}
    }
}

/// Proves and verifies gradients.
pub struct STARKVerifier {}

impl STARKVerifier {
    pub fn new() -> (r: Self) {
        STARKVerifier {}
    }

    /// Whether `proof` holds; see `validate_gradient`.
    pub fn verify(&self, proof: &GradientProof) -> (r: bool)
        ensures
            r,
    {
        validate_gradient(proof)
    }
}

// ---------------------------------------------------------------------------
// Reflection
// ---------------------------------------------------------------------------

/// The system's working memory.
pub struct WorkingMemory {}

impl WorkingMemory {
    /// The current state. Mocked.
    pub fn get_current_state(&self) -> (r: Result<String, ()>)
        ensures
            r matches Ok(s) && s@ == "current_state"@,
    {
        Ok("current_state".to_owned())
    }
}

/// Checks insights with Lean 4.
pub struct Lean4Verifier {}

impl Lean4Verifier {
    /// The proof of an insight. Mocked: always "proof".
    pub fn verify_insight(&self, insight: &mut Insight) -> (r: Result<String, ()>)
        ensures
            r matches Ok(s) && s@ == "proof"@,
            final(insight).proof_of() == old(insight).proof_of(),
    {
        Ok("proof".to_owned())
    }
}

/// A proposed constitutional change.
pub struct Proposal {}

impl Proposal {
    pub fn from_insight(insight: Insight) -> (r: Self) {
        Proposal {}
    }
}

/// Submits proposals to the BFT consensus.
pub struct BFTClient {}

impl BFTClient {
    /// Submits a proposal; accepted as is.
    pub fn submit_proposal(&self, proposal: Proposal) -> (r: Result<Proposal, ()>)
        ensures
            r == Ok::<Proposal, ()>(proposal),
    {
        Ok(proposal)
    }
}

/// An insight drawn from a discrepancy, with its proof once verified.
pub struct Insight {
    proof: Option<String>,
}

impl Insight {
    /// The insight's proof, if it has one.
    pub closed spec fn proof_of(&self) -> Option<String> {
        self.proof
    }

    pub fn set_proof(&mut self, proof: String)
        ensures
            final(self).proof_of() == Some(proof),
    {
        self.proof = Some(proof);
    }

    /// The insight's proof, if it has one.
    pub fn verified_proof(&self) -> (r: Option<&String>)
        ensures
            r == match self.proof_of() {
                Some(p) => Some(&p),
                None => None::<&String>,
            },
    {
        match &self.proof {
            Some(p) => Some(p),
            None => None,
        }
    }
}

/// Reflection: compares the current state with the desired one and turns
/// the discrepancies into verified insights.
pub struct ReflectionEngine {
    working_memory: Arc<WorkingMemory>,
    verifier: Arc<Lean4Verifier>,
    bft_client: Arc<BFTClient>,
}

impl ReflectionEngine {
    /// The working memory the engine reads.
    pub closed spec fn memory(&self) -> Arc<WorkingMemory> {
        self.working_memory
    }

    /// The verifier the engine checks insights with.
    pub closed spec fn insight_verifier(&self) -> Arc<Lean4Verifier> {
        self.verifier
    }

    /// The client the engine submits proposals to.
    pub closed spec fn client(&self) -> Arc<BFTClient> {
        self.bft_client
    }

    pub fn new(
        working_memory: Arc<WorkingMemory>,
        verifier: Arc<Lean4Verifier>,
        bft_client: Arc<BFTClient>,
    ) -> (r: Self)
        ensures
            r.memory() == working_memory,
            r.insight_verifier() == verifier,
            r.client() == bft_client,
    {
        ReflectionEngine { working_memory, verifier, bft_client }
    }

    /// The discrepancies between two states. Mocked: a single one, "delta".
    pub fn compute_discrepancies(&self, current: &str, desired: &str) -> (r: Vec<String>)
        ensures
            r@.len() == 1,
            r@[0]@ == "delta"@,
    {
        let mut v: Vec<String> = Vec::new();
        v.push("delta".to_owned());
        v
    }

    /// The insight drawn from a discrepancy; it has no proof yet.
    pub fn generate_insight(&self, delta: String) -> (r: Insight)
        ensures
            r.proof_of() is None,
    {
        Insight { proof: None }
    }

    /// The desired state. Mocked.
    pub fn get_desired_state(&self) -> (r: Result<String, ()>)
        ensures
            r matches Ok(s) && s@ == "desired_state"@,
    {
        Ok("desired_state".to_owned())
    }

    /// Reflects once: one insight per discrepancy between the current and
    /// the desired state, each carrying the proof the verifier gives it.
    pub fn reflect(&self) -> (r: Result<Vec<Insight>, ()>)
        ensures
            r matches Ok(v) && v@.len() == 1 && (v@[0].proof_of() matches Some(p) && p@ == "proof"@),
    {
        let current_state = match self.working_memory.get_current_state() {
            Ok(s) => s,
            Err(e) => return Err(e),
        };
        let desired_state = match self.get_desired_state() {
            Ok(s) => s,
            Err(e) => return Err(e),
        };
        let deltas = self.compute_discrepancies(current_state.as_str(), desired_state.as_str());
        let mut insights: Vec<Insight> = Vec::new();
        let mut i: usize = 0;
        while i < deltas.len()
            invariant
                0 <= i <= deltas@.len(),
                insights@.len() == i,
                forall|k: int| 0 <= k < i ==> ((#[trigger] insights@[k]).proof_of() matches Some(p) && p@
                    == "proof"@),
            decreases deltas@.len() - i,
        {
            let mut insight = self.generate_insight(deltas[i].clone());
            let proof = match self.verifier.verify_insight(&mut insight) {
                Ok(p) => p,
                Err(e) => return Err(e),
            };
            insight.set_proof(proof);
            insights.push(insight);
            i += 1;
        }
        Ok(insights)
    }

    /// Proposes a constitutional change drawn from an insight.
    pub fn propose_constitutional_change(&self, insight: Insight) -> (r: Result<Proposal, ()>)
        ensures
            r is Ok,
    {
        let proposal = Proposal::from_insight(insight);
        self.bft_client.submit_proposal(proposal)
    }
}

} // verus!
