//! Mapping lifecycle and refresh orchestration for serving storage objects
//! under stable public hostnames.
//!
//! A [`types::Mapping`] binds a storage location (`s3://bucket/key-prefix`)
//! to a public hostname. The [`manager::MappingManager`] owns the set of
//! mappings together with the bookkeeping of their background refresh
//! tasks, the [`refresh`] module plans the periodic signed-URL refresh and
//! the DNS record update, and the [`router`] module decides how an inbound
//! hostname-and-path request is answered in the proxy mode.
//!
//! All outside work — signing URLs, publishing DNS records, serving HTTP —
//! is left to collaborators: the library computes the requests handed to
//! them and folds their outcomes back into the mapping state.

pub mod config;
pub mod form;
pub mod manager;
pub mod parse;
pub mod refresh;
pub mod router;
pub mod types;

pub use config::Config;
pub use form::FormState;
pub use manager::MappingManager;
pub use refresh::extract_hostname;
pub use refresh::plan_dns_update;
pub use refresh::prepare_refresh;
pub use refresh::DnsChange;
pub use refresh::SignRequest;
pub use router::route_request;
pub use router::RouteDecision;
pub use types::default_presign_duration;
pub use types::CreateMappingRequest;
pub use types::ListMappingsResponse;
pub use types::MapError;
pub use types::Mapping;
pub use types::MappingStatus;
pub use types::RefreshLog;
pub use types::UpdateMappingRequest;
