//! Request routing for the proxy mode: from an inbound hostname and path
//! to the storage object to sign, or to the error answered instead.

use crate::manager::mapping_views;
use crate::parse::has_s3_scheme;
use crate::parse::parsed_bucket;
use crate::parse::parsed_key;
use crate::parse::spec_compose_key;
use crate::types::Mapping;
use crate::types::MappingStatus;
use crate::types::MappingView;
use vstd::prelude::*;

verus! {

/// The router's answer for an inbound hostname and path.
#[derive(Debug, Clone, PartialEq)]
pub enum RouteDecision {
    /// No mapping claims the hostname: answer "not found".
    NotFound,
    /// The matching mapping is not `Active`: answer "service unavailable",
    /// naming its current status.
    Unavailable { status: MappingStatus },
    /// The matching mapping's stored storage URI has no scheme prefix:
    /// answer an internal error.
    BadSource,
    /// Sign read access to `key` in `bucket` for `ttl_secs` seconds and
    /// redirect the client to the signed URL.
    Sign { bucket: String, key: String, ttl_secs: u64 },
}

/// Index of the first mapping whose hostname is `host`, if any.
pub open spec fn first_host_match(ms: Seq<MappingView>, host: Seq<char>) -> Option<int>
    decreases ms.len(),
{
    if ms.len() == 0 {
        None
    } else if ms[0].short_url == host {
        Some(0)
    } else {
        match first_host_match(ms.drop_first(), host) {
            Some(i) => Some(i + 1),
            None => None,
        }
    }
}

/// A mapping at `i` with hostname `host`, and none before it, is the first
/// match.
proof fn lemma_first_match_at(ms: Seq<MappingView>, host: Seq<char>, i: int)
    requires
        0 <= i < ms.len(),
        ms[i].short_url == host,
        forall|k: int| 0 <= k < i ==> ms[k].short_url != host,
    ensures
        first_host_match(ms, host) == Some(i),
    decreases i,
{
    if i > 0 {
        lemma_first_match_at(ms.drop_first(), host, i - 1);
    }
}

/// With no mapping for `host`, there is no match.
proof fn lemma_first_match_none(ms: Seq<MappingView>, host: Seq<char>)
    requires
        forall|k: int| 0 <= k < ms.len() ==> ms[k].short_url != host,
    ensures
        first_host_match(ms, host) is None,
    decreases ms.len(),
{
    if ms.len() > 0 {
        lemma_first_match_none(ms.drop_first(), host);
    }
}

/// Decides how to answer an inbound request for `hostname` and `path`
/// against a snapshot of the mappings.
///
/// The first mapping whose `short_url` equals the hostname is the match:
/// none means "not found"; a match that is not `Active` is unavailable; an
/// `Active` match yields the sign request for its bucket and the key
/// composed from its stored prefix and the request path, under the
/// mapping's own signed-URL validity.
pub fn route_request(mappings: &Vec<Mapping>, hostname: &str, path: &str) -> (d: RouteDecision)
    ensures
        ({
            let ms = mapping_views(mappings@);
            match first_host_match(ms, hostname@) {
                None => d == RouteDecision::NotFound,
                Some(i) => {
                    if ms[i].status != MappingStatus::Active {
                        d == (RouteDecision::Unavailable { status: ms[i].status })
                    } else if !has_s3_scheme(ms[i].s3_url) {
                        d == RouteDecision::BadSource
                    } else {
                        d matches RouteDecision::Sign { bucket, key, ttl_secs } && bucket@
                            == parsed_bucket(ms[i].s3_url) && key@ == spec_compose_key(
                            parsed_key(ms[i].s3_url),
                            path@,
                        ) && ttl_secs == ms[i].presign_duration_secs
                    }
                },
            }
        }),
{
    let host = hostname.to_owned();
    let n = mappings.len();
    let mut i: usize = 0;
    while i < n
        invariant
            0 <= i <= n,
            n == mappings@.len(),
            host@ == hostname@,
            forall|k: int| 0 <= k < i ==> mapping_views(mappings@)[k].short_url != hostname@,
        decreases n - i,
    {
        if mappings[i].short_url == host {
            proof {
                lemma_first_match_at(mapping_views(mappings@), hostname@, i as int);
            }
            let m = &mappings[i];
            if !matches!(m.status, MappingStatus::Active) {
                return RouteDecision::Unavailable { status: m.status };
            }
            return match crate::parse::split_source(m.s3_url.as_str()) {
                Some((bucket, base_key)) => {
                    let key = crate::parse::compose_key(base_key.as_str(), path);
                    RouteDecision::Sign { bucket, key, ttl_secs: m.presign_duration_secs }
                },
                None => RouteDecision::BadSource,
            };
        }
        i = i + 1;
    }
    proof {
        lemma_first_match_none(mapping_views(mappings@), hostname@);
    }
    RouteDecision::NotFound
}

} // verus!
