//! The refresh protocol: from a mapping to the sign request handed to the
//! signed-URL provider, and from the signed URL to the CNAME upsert handed
//! to the DNS record publisher.
//!
//! The outside collaborators do the signing and the publishing; this module
//! computes exactly what they are asked, and
//! [`MappingManager::apply_refresh_outcome`](crate::manager::MappingManager::apply_refresh_outcome)
//! folds their outcome back into the mapping.

use crate::parse::find_slash_from;
use crate::parse::has_s3_scheme;
use crate::parse::parsed_bucket;
use crate::parse::parsed_key;
use crate::types::MapError;
use crate::types::Mapping;
use vstd::prelude::*;

verus! {

/// A request to the signed-URL provider: sign read access to `key` in
/// `bucket` for `ttl_secs` seconds.
#[derive(Debug, Clone, PartialEq)]
pub struct SignRequest {
    pub bucket: String,
    pub key: String,
    pub ttl_secs: u64,
}

/// The CNAME upsert handed to the DNS record publisher.
#[derive(Debug, Clone, PartialEq)]
pub struct DnsChange {
    pub hosted_zone_id: String,
    pub record_name: String,
    /// The CNAME target: the signed URL's host, with the trailing dot DNS
    /// convention requires.
    pub target: String,
    /// Record TTL in seconds; always 300.
    pub ttl_secs: u64,
}

/// The push-mode refresh, steps one and two: parse the mapping's storage
/// URI and compose the sign request for exactly the stored key.
///
/// The push mode refreshes one whole object, so the URI must name both a
/// bucket and a key; otherwise, and when the scheme prefix is absent, this
/// fails with `InvalidSource`.
pub fn prepare_refresh(mapping: &Mapping) -> (r: Result<SignRequest, MapError>)
    ensures
        has_s3_scheme(mapping.s3_url@) && find_slash_from(mapping.s3_url@, 5) is Some ==> (match r {
            Ok(req) => req.bucket@ == parsed_bucket(mapping.s3_url@) && req.key@ == parsed_key(
                mapping.s3_url@,
            ) && req.ttl_secs == mapping.presign_duration_secs,
            Err(_) => false,
        }),
        !(has_s3_scheme(mapping.s3_url@) && find_slash_from(mapping.s3_url@, 5) is Some) ==> (
        r matches Err(e) && e == MapError::InvalidSource),
{
    match crate::parse::split_source_strict(mapping.s3_url.as_str()) {
        Some((bucket, key)) => Ok(
            SignRequest { bucket, key, ttl_secs: mapping.presign_duration_secs },
        ),
        None => Err(MapError::InvalidSource),
    }
}

/// Host component of `s` as a URL: `Some` of the host exactly when `s`
/// parses as a URL with an authority.
pub uninterp spec fn url_host(s: Seq<char>) -> Option<Seq<char>>;

/// Relies on `url::Url::parse` and `Url::host_str`: parses `s` and hands
/// back its host component, a function of `s` alone.
#[verifier::external_body]
fn parse_url_host(s: &str) -> (r: Option<String>)
    ensures
        r is Some <==> url_host(s@) is Some,
        r matches Some(h) ==> url_host(s@) == Some(h@),
{
    match url::Url::parse(s) {
        Ok(u) => u.host_str().map(|h| h.to_string()),
        Err(_) => None,
    }
}

/// The host of a signed URL, readied as a CNAME target: the host with a
/// trailing dot appended, per DNS convention.
///
/// Fails with `DnsUpdateFailed` when the URL has no host to point at.
pub fn extract_hostname(url: &str) -> (r: Result<String, MapError>)
    ensures
        match url_host(url@) {
            Some(h) => r matches Ok(t) && t@ == h + seq!['.'],
            None => r matches Err(e) && e == MapError::DnsUpdateFailed,
        },
{
    match parse_url_host(url) {
        Some(mut h) => {
            h.append(".");
            proof {
                reveal_strlit(".");
                assert("."@ =~= seq!['.']);
            }
            Ok(h)
        },
        None => Err(MapError::DnsUpdateFailed),
    }
}

/// The push-mode refresh, step four: plan the DNS upsert that points
/// `short_url` at the signed URL's host — a CNAME with a trailing-dot
/// target and a TTL of 300 seconds.
///
/// Fails with `DnsUpdateFailed` when the signed URL has no host component.
pub fn plan_dns_update(hosted_zone_id: &str, short_url: &str, presigned_url: &str) -> (r: Result<
    DnsChange,
    MapError,
>)
    ensures
        match url_host(presigned_url@) {
            Some(h) => r matches Ok(c) && c.hosted_zone_id@ == hosted_zone_id@ && c.record_name@
                == short_url@ && c.target@ == h + seq!['.'] && c.ttl_secs == 300,
            None => r matches Err(e) && e == MapError::DnsUpdateFailed,
        },
{
    let target = match extract_hostname(presigned_url) {
        Ok(t) => t,
        Err(e) => {
            return Err(e);
        },
    };
    Ok(
        DnsChange {
            hosted_zone_id: hosted_zone_id.to_owned(),
            record_name: short_url.to_owned(),
            target,
            ttl_secs: 300,
        },
    )
}

} // verus!
