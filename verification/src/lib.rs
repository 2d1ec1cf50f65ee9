//! A small file-sharing core: an authorization engine over Basic and Bearer
//! credentials, a streaming ingestion pipeline with content fingerprinting,
//! per-file permission/expiry records, an access resolver for downloads, and
//! a reaper for expired files. All decision logic is verified; filesystem,
//! network and clock access stay behind a thin unverified shell.

pub mod auth;
pub mod basic;
pub mod bearer;
pub mod error;
pub mod file_data;
pub mod ingest;
pub mod random;
pub mod record;
pub mod resolve;
pub mod store;
pub mod text;
