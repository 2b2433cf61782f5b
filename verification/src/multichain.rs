//! Bittensor subnets: ZK proving on SN4 (Targon) and the security
//! analysis swarm, with its vulnerability records.
use vstd::prelude::*;
use crate::assoc::strs_equal;

verus! {

/// A ZK proving request to SN4.
#[derive(Debug, Clone)]
pub struct TargonZKRequest {
    pub circuit_wasm: String,
    pub proving_key: String,
    pub public_inputs: Vec<String>,
    pub private_inputs: Vec<String>,
    pub tee_type: Option<String>,
    pub require_attestation: Option<bool>,
}

/// The measurements of a proving run.
#[derive(Debug, Clone)]
pub struct TargonPerformance {
    pub setup_time_ms: u64,
    pub proving_time_ms: u64,
    pub verification_time_ms: u64,
    pub memory_usage_mb: u32,
}

/// The answer of SN4: the proof and its TEE attestation.
#[derive(Debug, Clone)]
pub struct TargonZKResponse {
    pub proof: String,
    pub attestation: Option<String>,
    pub performance: TargonPerformance,
}

/// A vulnerability as SN60 (Bitsec) reports it.
#[derive(Debug, Clone)]
pub struct BitsecVulnerability {
    pub id: String,
    pub title: String,
    pub description: String,
    pub severity: String,
    pub location: String,
    pub cwe_id: Option<String>,
    pub remediation: Option<String>,
}

/// A vulnerability as the system records it.
#[derive(Clone)]
pub struct Vulnerability {
    pub id: String,
    pub title: String,
    pub description: String,
    pub severity: String,
    pub location: String,
    pub cwe_id: Option<String>,
    pub verified: bool,
    pub exploitation_details: Option<String>,
    pub remediation: Option<String>,
    pub created_at: u64,
}

/// The attested proof of a vulnerability analysis.
pub struct VulnerabilityProof {
    pub result_hash: String,
    pub signature: String,
    pub attestor_public_key: String,
    pub timestamp: u64,
    pub openant_version: String,
}

/// Indexes vulnerabilities in the WormGraph.
pub struct WormGraphIndexer;

/// The fast inference path.
pub struct FastBrain;

/// Orchestrates the subnets of the security swarm.
pub struct SecondSelfOrchestrator {
    pub wormgraph_indexer: WormGraphIndexer,
    pub fast_brain: FastBrain,
}

fn clone_text(o: &Option<String>) -> (r: Option<String>)
    ensures
        r == *o,
{
    match o {
        Some(s) => Some(s.clone()),
        None => None,
    }
}

/// Code in these languages also goes through penetration testing.
pub open spec fn pentested_language(language: Seq<char>) -> bool {
    language == "javascript"@ || language == "rust"@
}

/// Findings of this severity get a suggested fix.
pub open spec fn fix_wanted(severity: Seq<char>) -> bool {
    severity == "critical"@ || severity == "high"@
}

/// Findings of this severity get a ZK proof of the analysis.
pub open spec fn proof_wanted(severity: Seq<char>) -> bool {
    severity == "critical"@
}

/// The positions, in order, of the findings that get a suggested fix.
pub open spec fn fix_positions(vulns: Seq<BitsecVulnerability>) -> Seq<usize>
    decreases vulns.len(),
{
    if vulns.len() == 0 {
        Seq::empty()
    } else {
        let prev = fix_positions(vulns.drop_last());
        if fix_wanted(vulns.last().severity@) {
            prev.push((vulns.len() - 1) as usize)
        } else {
            prev
        }
    }
}

impl SecondSelfOrchestrator {
    /// Whether the analysis of code in `language` runs a penetration test:
    /// for JavaScript and Rust.
    pub fn runs_pentest(language: &str) -> (r: bool)
        ensures
            r == pentested_language(language@),
    {
        strs_equal(language, "javascript") || strs_equal(language, "rust")
    }

    /// Whether a finding of `severity` gets a suggested fix: the critical
    /// and high ones.
    pub fn wants_fix(severity: &str) -> (r: bool)
        ensures
            r == fix_wanted(severity@),
    {
        strs_equal(severity, "critical") || strs_equal(severity, "high")
    }

    /// Whether a fixed finding of `severity` gets a ZK proof: the critical
    /// ones.
    pub fn wants_proof(severity: &str) -> (r: bool)
        ensures
            r == proof_wanted(severity@),
    {
        strs_equal(severity, "critical")
    }

    /// The positions, in order, of the findings that the analysis fixes.
    pub fn findings_to_fix(vulns: &Vec<BitsecVulnerability>) -> (r: Vec<usize>)
        ensures
            r@ == fix_positions(vulns@),
    {
        let mut out: Vec<usize> = Vec::new();
        let mut i: usize = 0;
        assert(vulns@.take(0) =~= Seq::<BitsecVulnerability>::empty());
        while i < vulns.len()
            invariant
                0 <= i <= vulns@.len(),
                out@ == fix_positions(vulns@.take(i as int)),
            decreases vulns@.len() - i,
        {
            assert(vulns@.take(i as int + 1).drop_last() =~= vulns@.take(i as int));
            if Self::wants_fix(vulns[i].severity.as_str()) {
                out.push(i);
            }
            i += 1;
        }
        assert(vulns@.take(vulns@.len() as int) =~= vulns@);
        out
    }

    /// The system's record of a Bitsec finding: the same fields, not yet
    /// verified, without exploitation details, dated zero.
    pub fn convert_to_cathedral_vuln(&self, vuln: &BitsecVulnerability) -> (r: Vulnerability)
        ensures
            r.id == vuln.id,
            r.title == vuln.title,
            r.description == vuln.description,
            r.severity == vuln.severity,
            r.location == vuln.location,
            r.cwe_id == vuln.cwe_id,
            !r.verified,
            r.exploitation_details is None,
            r.remediation == vuln.remediation,
            r.created_at == 0,
    {
        Vulnerability {
            id: vuln.id.clone(),
            title: vuln.title.clone(),
            description: vuln.description.clone(),
            severity: vuln.severity.clone(),
            location: vuln.location.clone(),
            cwe_id: clone_text(&vuln.cwe_id),
            verified: false,
            exploitation_details: None,
            remediation: clone_text(&vuln.remediation),
            created_at: 0,
        }
    }
}

} // verus!
