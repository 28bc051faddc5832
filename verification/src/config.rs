//! Process configuration as the core consumes it: plain byte and integer
//! values, injected by the boundary layer and immutable for the life of
//! the process.

use vstd::prelude::*;

verus! {

/// The default location of the on-disk database, as path bytes
/// (`./filebin_db`).
pub open spec fn default_db_path() -> Seq<u8> {
    seq![46u8, 47u8, 102u8, 105u8, 108u8, 101u8, 98u8, 105u8, 110u8, 95u8, 100u8, 98u8]
}

/// User-facing configuration. Sizes are plain byte counts; durations are
/// seconds.
#[derive(Debug, Clone, PartialEq, Eq)]
pub struct AppConfig {
    /// Largest accepted upload, in bytes.
    pub file_size_limit: u64,
    /// Length of the rate-limit window, in seconds.
    pub ratelimit_period_length: u64,
    /// Bytes a token may upload within one window.
    pub ratelimit_period_byte_limit: u64,
    /// Content types served inline rather than as attachments.
    pub allowed_preview_mime_regex: String,
    /// Root directory of the databases, as path bytes.
    pub db_path: Vec<u8>,
    /// Cache capacity handed to the key-value store, in bytes.
    pub sled_cache_cap: u64,
    /// TCP port of the boundary layer.
    pub port: u16,
}

impl Default for AppConfig {
    /// One GiB per file, two GiB per day and token, half a GiB of cache.
    fn default() -> (r: Self)
        ensures
            r.file_size_limit == 1073741824u64,
            r.ratelimit_period_length == 86400u64,
            r.ratelimit_period_byte_limit == 2147483648u64,
            r.allowed_preview_mime_regex@
                == "^((audio|image|video)/[a-z.+-]+|(application/json|text/plain))$"@,
            r.db_path@ == default_db_path(),
            r.sled_cache_cap == 536870912u64,
            r.port == 8080u16,
    {
        let db_path: Vec<u8> = vec![46, 47, 102, 105, 108, 101, 98, 105, 110, 95, 100, 98];
        proof {
            assert(db_path@ =~= default_db_path());
        }
        AppConfig {
            file_size_limit: 1073741824,
            ratelimit_period_length: 86400,
            ratelimit_period_byte_limit: 2147483648,
            allowed_preview_mime_regex:
                "^((audio|image|video)/[a-z.+-]+|(application/json|text/plain))$".to_owned(),
            db_path,
            sled_cache_cap: 536870912,
            port: 8080,
        }
    }
}

/// Derived locations of the two stores, as path bytes.
#[derive(Debug, Clone, PartialEq, Eq)]
pub struct PrivAppConfig {
    /// Directory of the embedded key-value store.
    pub sled_path: Vec<u8>,
    /// Directory of the blob files.
    pub blob_path: Vec<u8>,
}

} // verus!
