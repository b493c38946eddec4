//! Static configuration for the single-mapping push mode: one storage URI,
//! one public hostname, one DNS zone, refreshed on a fixed period.

use crate::parse::find_slash_from;
use crate::parse::has_s3_scheme;
use crate::parse::parsed_bucket;
use crate::parse::parsed_key;
use crate::types::MapError;
use vstd::prelude::*;

verus! {

/// Configuration of the push mode: the storage URI to serve, the hostname
/// to publish, the DNS zone to publish into, and the signing/refresh
/// periods in seconds. The refresh period is shorter than the signed-URL
/// validity, so a published URL never expires before its replacement.
#[derive(Debug)]
pub struct Config {
    pub s3_url: String,
    pub short_url: String,
    pub hosted_zone_id: String,
    /// Validity of issued signed URLs, in seconds (default: 12 hours).
    pub presign_duration_secs: u64,
    /// Period between refreshes, in seconds (default: 11 hours).
    pub refresh_interval_secs: u64,
}

impl Config {
    /// Builds a configuration, refusing a storage URI that lacks the
    /// `s3://` scheme prefix with `InvalidSource`.
    pub fn new(s3_url: String, short_url: String, hosted_zone_id: String) -> (r: Result<
        Config,
        MapError,
    >)
        ensures
            has_s3_scheme(s3_url@) ==> (match r {
                Ok(c) => c.s3_url == s3_url && c.short_url == short_url && c.hosted_zone_id
                    == hosted_zone_id && c.presign_duration_secs == 43200
                    && c.refresh_interval_secs == 39600,
                Err(_) => false,
            }),
            !has_s3_scheme(s3_url@) ==> (r matches Err(e) && e == MapError::InvalidSource),
    {
        if !crate::parse::has_scheme_prefix(s3_url.as_str()) {
            return Err(MapError::InvalidSource);
        }
        Ok(
            Config {
                s3_url,
                short_url,
                hosted_zone_id,
                presign_duration_secs: 12 * 60 * 60,
                refresh_interval_secs: 11 * 60 * 60,
            },
        )
    }

    /// Splits the configured storage URI into bucket and key.
    ///
    /// The push mode refreshes one whole object, so a URI that stops at the
    /// bucket is refused with `InvalidSource`, as is one without the scheme
    /// prefix.
    pub fn parse_s3_url(&self) -> (r: Result<(String, String), MapError>)
        ensures
            has_s3_scheme(self.s3_url@) && find_slash_from(self.s3_url@, 5) is Some ==> (match r {
                Ok(p) => p.0@ == parsed_bucket(self.s3_url@) && p.1@ == parsed_key(self.s3_url@),
                Err(_) => false,
            }),
            !(has_s3_scheme(self.s3_url@) && find_slash_from(self.s3_url@, 5) is Some) ==> (
            r matches Err(e) && e == MapError::InvalidSource),
    {
        match crate::parse::split_source_strict(self.s3_url.as_str()) {
            Some(p) => Ok(p),
            None => Err(MapError::InvalidSource),
        }
    }
}

} // verus!
