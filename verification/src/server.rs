//! Responses of the server's API.
use vstd::prelude::*;

verus! {

/// The outcome of deploying a contract.
#[derive(Debug)]
pub struct DeployResponse {
    pub success: bool,
    pub contract_address: Option<String>,
    pub transaction_hash: Option<String>,
    pub action_id: Option<String>,
    pub error: Option<String>,
}

/// What the orchestrator answered to a deployment: the contract's address,
/// the transaction and the action, or an error.
pub open spec fn deploy_response_for(result: Result<(String, String, String), String>, r: DeployResponse) -> bool {
    match result {
        Ok((address, tx, action)) => r.success && r.contract_address == Some(address)
            && r.transaction_hash == Some(tx) && r.action_id == Some(action) && r.error is None,
        Err(e) => !r.success && r.contract_address is None && r.transaction_hash is None
            && r.action_id is None && r.error == Some(e),
    }
}

impl DeployResponse {
    /// The response to a deployment's outcome.
    pub fn from_outcome(result: Result<(String, String, String), String>) -> (r: Self)
        ensures
            deploy_response_for(result, r),
    {
        match result {
            Ok((contract_address, tx_hash, action_id)) => DeployResponse {
                success: true,
                contract_address: Some(contract_address),
                transaction_hash: Some(tx_hash),
                action_id: Some(action_id),
                error: None,
            },
            Err(e) => DeployResponse {
                success: false,
                contract_address: None,
                transaction_hash: None,
                action_id: None,
                error: Some(e),
            },
        }
    }
}

/// What the orchestrator makes of the remote deployment's answer: its
/// error (or "Deployment failed") when it did not succeed, else the
/// contract's address and the transaction (empty where missing) with the
/// action's identifier.
pub fn deployment_outcome(
    success: bool,
    error: Option<String>,
    contract_address: Option<String>,
    transaction_hash: Option<String>,
) -> (r: Result<(String, String, String), String>)
    ensures
        !success ==> (r matches Err(e) && e@ == (match error {
            Some(x) => x@,
            None => "Deployment failed"@,
        })),
        success ==> (r matches Ok((address, tx, action)) && address@ == (match contract_address {
            Some(x) => x@,
            None => Seq::<char>::empty(),
        }) && tx@ == (match transaction_hash {
            Some(x) => x@,
            None => Seq::<char>::empty(),
        }) && action@ == "mock_deploy_action_id"@),
{
    let action_id = "mock_deploy_action_id".to_owned();
    if !success {
        return Err(
            match error {
                Some(e) => e,
                None => "Deployment failed".to_owned(),
            },
        );
    }
    let contract_address = match contract_address {
        Some(a) => a,
        None => String::new(),
    };
    let tx_hash = match transaction_hash {
        Some(t) => t,
        None => String::new(),
    };
    Ok((contract_address, tx_hash, action_id))
}

} // verus!
