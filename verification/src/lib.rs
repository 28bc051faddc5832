//! Core of an anonymous file-sharing service: clients upload binary
//! payloads, the service persists them compressed and keyed by a unique
//! identifier, serves them back (optionally decoded), enforces a
//! rolling-window upload quota per client token, and permits deletion
//! only to the holder of a secret issued at upload time.
//!
//! State lives in an embedded ordered key-value store, modelled
//! throughout the contracts as the map [`kv_map`]: metadata records
//! under `metadata:{id}` in a versioned binary encoding, and rate-ledger
//! entries under `ratelimit:{token}:{timestamp}`. Blob bytes live in
//! files owned by the boundary layer; this crate produces and decodes
//! their compressed content and derives their paths.
//!
//! The contracts describe non-concurrent invocation. The ledger's
//! scan-then-insert admission is not atomic across keys, so concurrent
//! admissions for one token can jointly exceed the quota; metadata and
//! blob writes share no transaction either. Both limits are inherited
//! from the design and documented on the functions involved.

mod auth;
mod bytes_util;
mod codec;
mod config;
mod encoding;
mod errors;
mod keys;
mod kv;
mod ledger;
mod meta;
mod record;
mod service;
mod utils;

pub use auth::{
    issue_deletion_key, lemma_deletion_key_correctness, tag_of, verify_deletion_key, verify_spec,
};
pub use codec::{codec_round_trip, compressed_of, decode, decompressed_of};
pub use config::{AppConfig, PrivAppConfig};
pub use encoding::{decode_file_info, encode_file_info, lemma_encode_decode};
pub use errors::{CodecError, DeleteError, StoreError, UploadError};
pub use keys::{file_path_from_id, ledger_key_spec, ledger_prefix_spec, lemma_key_namespaces_disjoint, meta_key_spec};
pub use kv::kv_map;
pub use ledger::{
    cleaned, counts_in_window, credit_sum, entry_credit, ledger_well_formed,
    lemma_admission_preserves_window_bound, lemma_cleanup_window_bound,
    lemma_rate_admission_monotonic, lemma_window_expiry, no_entries_after, stale_keys,
    timebased_ratelimit, window_lo, window_sum,
};
pub use meta::{
    lemma_deleted_is_not_found, lemma_ledger_ops_preserve_metadata, lemma_meta_consistency,
    lemma_metadata_ops_preserve_ledger, meta_lookup, read_file_info, remove_file_info, store_file,
};
pub use record::{decode_spec, encode_spec, FileInfo, FileInfoView};
pub use service::{delete_file, download, upload, DownloadPayload, UploadOutcome};
pub use utils::{get_download_link, regex_match_of, regex_valid, should_preview, unique_id, unique_id_spec};
