//! Requests to the PicoAds recommendation service: the endpoint, the
//! credentials and the request body; sending them is the caller's part.
use vstd::prelude::*;

verus! {

#[derive(Debug, Clone)]
pub struct RecommendationRequest {
    pub query: String,
    pub hub: Option<String>,
    pub max_results: Option<u32>,
}

/// Where and as whom recommendations are asked for.
pub struct PicoAdsClient {
    api_key: String,
    base_url: String,
}

/// The service's address when none is given.
pub open spec fn default_base_url() -> Seq<char> {
    "https://picoads.xyz"@
}

impl PicoAdsClient {
    /// The API key sent with each request.
    pub closed spec fn key(&self) -> Seq<char> {
        self.api_key@
    }

    /// The service's base address.
    pub closed spec fn base(&self) -> Seq<char> {
        self.base_url@
    }

    /// A client with `api_key`, for `base_url` or else the public service.
    pub fn new(api_key: String, base_url: Option<String>) -> (r: Self)
        ensures
            r.key() == api_key@,
            r.base() == match base_url {
                Some(u) => u@,
                None => default_base_url(),
            },
    {
        let base_url = match base_url {
            Some(u) => u,
            None => "https://picoads.xyz".to_owned(),
        };
        PicoAdsClient { api_key, base_url }
    }

    /// The address recommendations are posted to.
    pub fn recommendations_url(&self) -> (r: String)
        ensures
            r@ == self.base() + "/recommendations"@,
    {
        let mut s = self.base_url.clone();
        s.append("/recommendations");
        s
    }

    /// The value of the `Authorization` header: the key as a bearer token.
    pub fn authorization(&self) -> (r: String)
        ensures
            r@ == "Bearer "@ + self.key(),
    {
        let mut s = "Bearer ".to_owned();
        s.append(self.api_key.as_str());
        s
    }

    /// The body of a recommendation request.
    pub fn recommendation_request(&self, query: &str, hub: Option<&str>, max_results: Option<u32>) -> (r:
        RecommendationRequest)
        ensures
            r.query@ == query@,
            r.hub matches Some(h) <==> hub is Some,
            r.hub matches Some(h) ==> h@ == hub->0@,
            r.max_results == max_results,
    {
        let hub = match hub {
            Some(h) => Some(h.to_owned()),
            None => None,
        };
        RecommendationRequest { query: query.to_owned(), hub, max_results }
    }
}

} // verus!
