//! The AI sidecar's answers, and its endpoint addresses.
//!
//! The sidecar is a small HTTP service with one endpoint per operation
//! (`health`, `info`, `embed`, `cluster`, `classify`). The daemon makes the
//! calls; its errors are soft (the data plane keeps moving with hash-based
//! dedup).

use vstd::prelude::*;
use crate::text::{append_str, chars_of, string_from};

verus! {

/// What the sidecar reports about its models.
pub struct SidecarInfo {
    pub embedding_model: String,
    pub embedding_dim: u32,
    pub embedding_fallback: bool,
    pub hosted_model_configured: bool,
    pub hosted_model_name: Option<String>,
}

/// Cluster labels for a batch of embeddings.
pub struct ClusterResponse {
    pub labels: Vec<i32>,
    pub n_clusters: u32,
}

/// `s` without its trailing slashes (`str::trim_end_matches('/')`).
pub open spec fn trim_end_slashes(s: Seq<char>) -> Seq<char>
    decreases s.len(),
{
    if s.len() > 0 && s.last() == '/' {
        trim_end_slashes(s.drop_last())
    } else {
        s
    }
}

/// The address of a sidecar endpoint: the base URL without trailing
/// slashes, a slash, the endpoint's name.
pub fn endpoint_url(base_url: &str, endpoint: &str) -> (r: String)
    ensures
        r@ == trim_end_slashes(base_url@) + "/"@ + endpoint@,
{
    let mut v = chars_of(base_url);
    while v.len() > 0 && v[v.len() - 1] == '/'
        invariant
            trim_end_slashes(v@) == trim_end_slashes(base_url@),
        decreases v.len(),
    {
        v.pop();
    }
    append_str(&mut v, "/");
    append_str(&mut v, endpoint);
    string_from(v.as_slice())
}

} // verus!
