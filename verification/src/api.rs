//! Authentication of API requests: a DID and a hex-encoded signature
//! carried in headers, and the proposal a request names.
use vstd::prelude::*;

verus! {

/// The error every refused request gets.
pub struct ApiError;

/// Where a request names a proposal.
#[derive(Debug, Clone)]
pub enum ProposalIdentifier {
    Path { id: String },
    Query { id: String },
    Body { id: String },
}

/// A request whose DID and signature headers were read.
pub struct AuthenticatedDid {
    pub did: String,
    pub signature: Vec<u8>,
}

/// What the authentication middleware attaches to a request.
#[derive(Clone)]
pub struct AuthInfo {
    pub did: String,
    pub signature: Vec<u8>,
}

/// The value of a hexadecimal digit (either case), if it is one.
pub open spec fn hex_value(c: u8) -> Option<u8> {
    if 48 <= c <= 57 {
        Some((c - 48) as u8)
    } else if 65 <= c <= 70 {
        Some((c - 55) as u8)
    } else if 97 <= c <= 102 {
        Some((c - 87) as u8)
    } else {
        None
    }
}

/// `text` is an even number of hexadecimal digits.
pub open spec fn hex_decodable(text: Seq<u8>) -> bool {
    text.len() % 2 == 0 && forall|i: int| 0 <= i < text.len() ==> (#[trigger] hex_value(text[i])) is Some
}

/// The bytes that a run of hexadecimal digit pairs stands for.
pub open spec fn hex_decoded(text: Seq<u8>) -> Seq<u8> {
    Seq::new(
        text.len() / 2,
        |i: int| (16 * hex_value(text[2 * i])->0 + hex_value(text[2 * i + 1])->0) as u8,
    )
}

/// Decodes hexadecimal text (`hex::decode`): an even number of digits of
/// either case, each pair one byte; `None` for anything else.
#[verifier::external_body]
fn hex_decode(text: &[u8]) -> (r: Option<Vec<u8>>)
    ensures
        r is Some <==> hex_decodable(text@),
        r matches Some(v) ==> v@ == hex_decoded(text@),
{
    hex::decode(text).ok()
}

impl AuthenticatedDid {
    /// Reads the `X-DID` header, as text, and the `X-Signature` header, as
    /// hexadecimal; a request missing either, or whose signature does not
    /// decode, is refused.
    pub fn from_headers(did: Option<&str>, signature_hex: Option<&[u8]>) -> (r: Result<Self, ApiError>)
        ensures
            r is Ok <==> (did is Some && signature_hex is Some && hex_decodable(signature_hex->0@)),
            r matches Ok(a) ==> a.did@ == did->0@ && a.signature@ == hex_decoded(signature_hex->0@),
    {
        let did = match did {
            Some(d) => d.to_owned(),
            None => return Err(ApiError),
        };
        let signature = match signature_hex {
            Some(s) => match hex_decode(s) {
                Some(v) => v,
                None => return Err(ApiError),
            },
            None => return Err(ApiError),
        };
        Ok(AuthenticatedDid { did, signature })
    }
}

/// What the middleware attaches for the given headers: both must be there
/// and the signature must decode, else nothing is attached.
pub fn auth_info_from_headers(did: Option<&str>, signature_hex: Option<&[u8]>) -> (r: Option<AuthInfo>)
    ensures
        r is Some <==> (did is Some && signature_hex is Some && hex_decodable(signature_hex->0@)),
        r matches Some(a) ==> a.did@ == did->0@ && a.signature@ == hex_decoded(signature_hex->0@),
{
    let signature = match signature_hex {
        Some(s) => hex_decode(s),
        None => None,
    };
    match (did, signature) {
        (Some(d), Some(sig)) => Some(AuthInfo { did: d.to_owned(), signature: sig }),
        _ => None,
    }
}

/// The proposal a request names: the path parameter if there is one, else
/// a query identifier; any other form is refused.
pub fn proposal_id_from(path: Option<String>, query: Option<ProposalIdentifier>) -> (r: Result<String, ApiError>)
    ensures
        path is Some ==> (r matches Ok(id) && id == path->0),
        path is None ==> (query matches Some(ProposalIdentifier::Query { id }) ==> (r matches Ok(x) && x == id)),
        path is None && !(query matches Some(ProposalIdentifier::Query { .. })) ==> r is Err,
{
    if let Some(p) = path {
        return Ok(p);
    }
    match query {
        Some(ProposalIdentifier::Query { id }) => Ok(id),
        _ => Err(ApiError),
    }
}

/// A proposal may be acted on by `did` only if `did` wrote it and its
/// signature was accepted.
pub fn check_proposal_author(author_did: &str, did: &str, signature_accepted: bool) -> (r: Result<(), ApiError>)
    ensures
        r is Ok <==> (author_did@ == did@ && signature_accepted),
{
    if !crate::assoc::strs_equal(author_did, did) {
        return Err(ApiError);
    }
    if !signature_accepted {
        return Err(ApiError);
    }
    Ok(())
}

} // verus!
