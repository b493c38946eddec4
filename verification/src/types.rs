//! The mapping record, its status state machine, and the request/log types
//! exchanged with the surrounding service.

use crate::parse::has_s3_scheme;
use crate::parse::parsed_bucket;
use crate::parse::parsed_key;
use vstd::prelude::*;

verus! {

/// Status of a mapping.
///
/// `Pending` is the initial state before the first activation; `Active`
/// mappings are served and refreshed; `Paused` mappings are neither; a
/// failed refresh moves a mapping to `Error`, and the next successful
/// refresh moves it back to `Active`.
#[derive(Debug, Clone, Copy, PartialEq, Eq, Structural)]
pub enum MappingStatus {
    Pending,
    Active,
    Paused,
    Error,
}

impl MappingStatus {
    /// Human-readable name of the status, as shown to operators.
    pub fn as_str(&self) -> (r: &'static str)
        ensures
            *self == MappingStatus::Pending ==> r@ == "Pending"@,
            *self == MappingStatus::Active ==> r@ == "Active"@,
            *self == MappingStatus::Paused ==> r@ == "Paused"@,
            *self == MappingStatus::Error ==> r@ == "Error"@,
    {
        match self {
            MappingStatus::Pending => "Pending",
            MappingStatus::Active => "Active",
            MappingStatus::Paused => "Paused",
            MappingStatus::Error => "Error",
        }
    }
}

/// Errors surfaced by the mapping operations and the refresh protocol.
#[derive(Debug, Clone, Copy, PartialEq, Eq, Structural)]
pub enum MapError {
    /// The storage URI is malformed (missing scheme prefix, or missing a key
    /// where one is required).
    InvalidSource,
    /// No mapping exists under the given id.
    NotFound,
    /// A mapping with the same id already exists.
    AlreadyExists,
    /// Another mapping already claims the same public hostname.
    HostnameConflict,
    /// The signed-URL provider failed.
    SigningFailed,
    /// The DNS record publisher failed, or the signed URL it was handed
    /// could not be understood.
    DnsUpdateFailed,
}

impl MapError {
    /// Human-readable description of the error.
    pub fn message(&self) -> (r: &'static str)
        ensures
            *self == MapError::InvalidSource ==> r@ == "S3 URL must start with s3://"@,
            *self == MapError::NotFound ==> r@ == "Mapping not found"@,
            *self == MapError::AlreadyExists ==> r@ == "Mapping already exists"@,
            *self == MapError::HostnameConflict ==> r@ == "Hostname is already mapped"@,
            *self == MapError::SigningFailed ==> r@ == "Failed to generate presigned URL"@,
            *self == MapError::DnsUpdateFailed ==> r@ == "Failed to update DNS record"@,
    {
        match self {
            MapError::InvalidSource => "S3 URL must start with s3://",
            MapError::NotFound => "Mapping not found",
            MapError::AlreadyExists => "Mapping already exists",
            MapError::HostnameConflict => "Hostname is already mapped",
            MapError::SigningFailed => "Failed to generate presigned URL",
            MapError::DnsUpdateFailed => "Failed to update DNS record",
        }
    }
}

/// Default validity of an issued signed URL, in seconds: five minutes, since
/// URLs are generated on demand in the proxy mode.
pub fn default_presign_duration() -> (r: u64)
    ensures
        r == 300,
{
    5 * 60
}

/// Relies on `uuid::Uuid::new_v4` and `Uuid::as_u64_pair`: a freshly
/// generated random identifier, reduced to the upper 64 bits of the UUID.
/// The value is random, so nothing is promised of it.
#[verifier::external_body]
fn fresh_id() -> u64 {
    uuid::Uuid::new_v4().as_u64_pair().0
}

/// Relies on `chrono::Utc::now` and `DateTime::timestamp_millis`: the
/// current time as milliseconds since the Unix epoch. The value depends on
/// the clock, so nothing is promised of it.
#[verifier::external_body]
fn now_millis() -> i64 {
    chrono::Utc::now().timestamp_millis()
}

/// Mathematical value of a [`Mapping`]: the same fields with the strings
/// read as character sequences.
#[verifier::ext_equal]
pub struct MappingView {
    pub id: u64,
    pub s3_url: Seq<char>,
    pub short_url: Seq<char>,
    pub hosted_zone_id: Seq<char>,
    pub status: MappingStatus,
    pub presign_duration_secs: u64,
    pub refresh_interval_secs: u64,
    pub created_at: i64,
    pub updated_at: i64,
    pub last_refresh: Option<i64>,
    pub next_refresh: Option<i64>,
    pub last_error: Option<Seq<char>>,
}

/// A single mapping: a storage location served under a public hostname.
///
/// `s3_url` is the storage URI `s3://bucket/key-prefix`; `short_url` is the
/// public hostname, used as the DNS record name in the push mode and as the
/// `Host` match key in the proxy mode; `hosted_zone_id` is the DNS zone
/// handle for the push mode. Timestamps are milliseconds since the Unix
/// epoch. `last_error` holds the description of the last failed refresh and
/// is cleared by the next successful one.
#[derive(Debug)]
pub struct Mapping {
    pub id: u64,
    pub s3_url: String,
    pub short_url: String,
    pub hosted_zone_id: String,
    pub status: MappingStatus,
    pub presign_duration_secs: u64,
    pub refresh_interval_secs: u64,
    pub created_at: i64,
    pub updated_at: i64,
    pub last_refresh: Option<i64>,
    pub next_refresh: Option<i64>,
    pub last_error: Option<String>,
}

impl View for Mapping {
    type V = MappingView;

    open spec fn view(&self) -> MappingView {
        MappingView {
            id: self.id,
            s3_url: self.s3_url@,
            short_url: self.short_url@,
            hosted_zone_id: self.hosted_zone_id@,
            status: self.status,
            presign_duration_secs: self.presign_duration_secs,
            refresh_interval_secs: self.refresh_interval_secs,
            created_at: self.created_at,
            updated_at: self.updated_at,
            last_refresh: self.last_refresh,
            next_refresh: self.next_refresh,
            last_error: self.last_error.deep_view(),
        }
    }
}

impl Clone for Mapping {
    fn clone(&self) -> (r: Self)
        ensures
            r@ == self@,
    {
        let last_error = match &self.last_error {
            Some(e) => Some(e.clone()),
            None => None,
        };
        Mapping {
            id: self.id,
            s3_url: self.s3_url.clone(),
            short_url: self.short_url.clone(),
            hosted_zone_id: self.hosted_zone_id.clone(),
            status: self.status,
            presign_duration_secs: self.presign_duration_secs,
            refresh_interval_secs: self.refresh_interval_secs,
            created_at: self.created_at,
            updated_at: self.updated_at,
            last_refresh: self.last_refresh,
            next_refresh: self.next_refresh,
            last_error,
        }
    }
}

impl Mapping {
    /// Creates a mapping in the `Pending` state with a fresh random id, the
    /// default signed-URL validity of five minutes and a refresh period of
    /// four minutes (shorter than the validity, so a published URL never
    /// expires before its replacement arrives), both timestamps set to the
    /// creation time, and no recorded refresh or error.
    pub fn new(s3_url: String, short_url: String) -> (m: Mapping)
        ensures
            m.s3_url == s3_url,
            m.short_url == short_url,
            m.hosted_zone_id@ == Seq::<char>::empty(),
            m.status == MappingStatus::Pending,
            m.presign_duration_secs == 300,
            m.refresh_interval_secs == 240,
            m.created_at == m.updated_at,
            m.last_refresh is None,
            m.next_refresh is None,
            m.last_error is None,
    {
        let now = now_millis();
        Mapping {
            id: fresh_id(),
            s3_url,
            short_url,
            hosted_zone_id: String::new(),
            status: MappingStatus::Pending,
            presign_duration_secs: default_presign_duration(),
            refresh_interval_secs: 4 * 60,
            created_at: now,
            updated_at: now,
            last_refresh: None,
            next_refresh: None,
            last_error: None,
        }
    }

    /// Validity of the signed URLs issued for this mapping, in seconds.
    pub fn presign_duration(&self) -> (r: u64)
        ensures
            r == self.presign_duration_secs,
    {
        self.presign_duration_secs
    }

    /// Splits this mapping's storage URI into its bucket and key prefix.
    ///
    /// Fails with `InvalidSource` exactly when the `s3://` scheme prefix is
    /// absent; the key prefix is empty when the URI stops at the bucket.
    pub fn parse_s3_url(&self) -> (r: Result<(String, String), MapError>)
        ensures
            has_s3_scheme(self.s3_url@) ==> (match r {
                Ok(p) => p.0@ == parsed_bucket(self.s3_url@) && p.1@ == parsed_key(self.s3_url@),
                Err(_) => false,
            }),
            !has_s3_scheme(self.s3_url@) ==> (r matches Err(e) && e == MapError::InvalidSource),
    {
        match crate::parse::split_source(self.s3_url.as_str()) {
            Some(p) => Ok(p),
            None => Err(MapError::InvalidSource),
        }
    }
}

/// Request body for creating a mapping.
#[derive(Debug, Clone)]
pub struct CreateMappingRequest {
    pub s3_url: String,
    pub short_url: String,
    pub hosted_zone_id: String,
    pub presign_duration_secs: u64,
    pub refresh_interval_secs: u64,
}

/// Request body for updating a mapping; absent fields keep their value.
#[derive(Debug, Clone)]
pub struct UpdateMappingRequest {
    pub s3_url: Option<String>,
    pub short_url: Option<String>,
    pub hosted_zone_id: Option<String>,
    pub presign_duration_secs: Option<u64>,
    pub refresh_interval_secs: Option<u64>,
}

/// Response body listing all mappings.
#[derive(Debug)]
pub struct ListMappingsResponse {
    pub mappings: Vec<Mapping>,
}

/// Mathematical value of a [`RefreshLog`].
#[verifier::ext_equal]
pub struct RefreshLogView {
    pub mapping_id: u64,
    pub timestamp_ms: i64,
    pub success: bool,
    pub message: Seq<char>,
}

/// One entry of the operation log: the outcome of a refresh attempt.
#[derive(Debug, Clone)]
pub struct RefreshLog {
    pub mapping_id: u64,
    pub timestamp_ms: i64,
    pub success: bool,
    pub message: String,
}

impl View for RefreshLog {
    type V = RefreshLogView;

    open spec fn view(&self) -> RefreshLogView {
        RefreshLogView {
            mapping_id: self.mapping_id,
            timestamp_ms: self.timestamp_ms,
            success: self.success,
            message: self.message@,
        }
    }
}

} // verus!
