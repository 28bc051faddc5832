//! The core operation surface exposed to the boundary layer: upload,
//! download and delete, composed from the rate ledger, the metadata
//! store, the compression codec and the deletion authenticator.
//!
//! File I/O stays with the boundary layer: `upload` hands back the
//! compressed blob to be written at the identifier's blob path, and the
//! download decision takes the blob bytes as read from disk.

use vstd::bytes::spec_u64_to_le_bytes;
use vstd::prelude::*;
use crate::auth::{issue_deletion_key, new_deletion_secret, tag_of, verify_deletion_key, verify_spec};
use crate::codec::{brotli_compress, compressed_of, decode, decompressed_of};
use crate::config::AppConfig;
use crate::errors::{CodecError, DeleteError, StoreError, UploadError};
use crate::encoding::decode_file_info;
use crate::keys::{ledger_key_spec, meta_key};
use crate::kv::{kv_get, kv_map};
use crate::ledger::{cleaned, ledger_well_formed, timebased_ratelimit, window_sum};
use crate::meta::meta_lookup;
use crate::record::FileInfo;
use crate::utils::{unique_id, unique_id_spec};

verus! {

/// What a successful upload hands back to the boundary layer.
pub struct UploadOutcome {
    /// The record as it must be persisted: its deletion key is the
    /// salted hash, never the plaintext secret.
    pub file_info: FileInfo,
    /// The plaintext deletion secret, revealed to the uploader exactly
    /// once and never persisted.
    pub deletion_secret: Vec<u8>,
    /// The compressed blob, for the boundary layer to write at the
    /// identifier's blob path before persisting the metadata.
    pub compressed: Vec<u8>,
}

/// Admits the payload against the token's rolling-window quota, charges
/// its size, and builds the record and the compressed blob. The caller
/// then writes the blob file and persists the metadata with
/// `store_file`, in that order.
///
/// The clock is injected as a nanosecond reading; ledger timestamps keep
/// second resolution.
pub fn upload(
    db: &mut sled::Db,
    payload: &Vec<u8>,
    mime_type: Vec<u8>,
    name: Vec<u8>,
    token: &Vec<u8>,
    now_nanos: u128,
    config: &AppConfig,
) -> (r: Result<UploadOutcome, UploadError>)
    requires
        now_nanos / 1_000_000_000 <= u64::MAX as u128,
    ensures
        ({
            let m0 = kv_map(*old(db));
            let m1 = kv_map(*final(db));
            let now = (now_nanos / 1_000_000_000) as u64;
            let window = config.ratelimit_period_length;
            let limit = config.ratelimit_period_byte_limit;
            let charged = cleaned(m0, token@, now, window).insert(
                ledger_key_spec(token@, now),
                spec_u64_to_le_bytes(payload.len() as u64),
            );
            match r {
                Ok(outcome) => {
                    let info = outcome.file_info;
                    &&& info.id@ == unique_id_spec(now_nanos)
                    &&& info.mime_type@ == mime_type@
                    &&& info.name@ == name@
                    &&& info.size == payload.len()
                    &&& info.upload_date == now
                    &&& info.deletion_key@ == tag_of(outcome.deletion_secret@, name@)
                    &&& info.deletion_key@ != outcome.deletion_secret@
                    &&& outcome.compressed@ == compressed_of(payload@)
                    &&& decompressed_of(outcome.compressed@) == Some(payload@)
                    &&& ledger_well_formed(m0, token@)
                    &&& window_sum(m0, token@, now, window) + payload.len() <= limit
                    &&& m1 == charged
                    &&& window_sum(m1, token@, now, window) <= limit
                },
                Err(e) => {
                    &&& !(e is Compression)
                    &&& e is RateLimitExceeded ==> {
                        &&& window_sum(m0, token@, now, window) + payload.len() > limit
                        &&& m1 == cleaned(m0, token@, now, window)
                    }
                    &&& e == UploadError::Storage(StoreError::Corrupt) ==> {
                        &&& m1 == m0
                        &&& !ledger_well_formed(m0, token@)
                    }
                },
            }
        }),
{
    let now = (now_nanos / 1_000_000_000) as u64;
    let size = payload.len();
    let admitted = match timebased_ratelimit(
        db,
        token,
        size as u64,
        false,
        now,
        config.ratelimit_period_length,
        config.ratelimit_period_byte_limit,
    ) {
        Ok(b) => b,
        Err(e) => { return Err(UploadError::Storage(e)); },
    };
    if !admitted {
        return Err(UploadError::RateLimitExceeded);
    }
    let id = unique_id(now_nanos);
    let secret = new_deletion_secret();
    let deletion_key = issue_deletion_key(&secret, &name);
    let file_info = FileInfo {
        mime_type,
        upload_date: now,
        deletion_key,
        id,
        name,
        size: size as u64,
    };
    let compressed = match brotli_compress(payload) {
        Ok(c) => c,
        Err(_) => {
            proof {
                assert(false);
            }
            unreached()
        },
    };
    Ok(UploadOutcome { file_info, deletion_secret: secret, compressed })
}

/// What a download hands back: the bytes to send and their framing.
pub struct DownloadPayload {
    /// The bytes to stream to the client.
    pub bytes: Vec<u8>,
    /// The length of `bytes`, for content-length framing.
    pub length: u64,
    /// Whether `bytes` is still in the compressed encoding.
    pub is_compressed: bool,
}

/// The serving decision of a download: a consumer that accepts the
/// compressed encoding gets the stored bytes untouched with their
/// on-disk length; any other consumer gets the decoded payload. A decode
/// failure (corrupt or truncated blob) surfaces as an error.
pub fn download(blob: Vec<u8>, accept_compressed: bool) -> (r: Result<DownloadPayload, CodecError>)
    ensures
        match r {
            Ok(p) => {
                &&& p.is_compressed == accept_compressed
                &&& p.length == p.bytes@.len()
                &&& accept_compressed ==> p.bytes@ == blob@
                &&& !accept_compressed ==> decompressed_of(blob@) == Some(p.bytes@)
            },
            Err(_) => !accept_compressed && decompressed_of(blob@) is None,
        },
{
    if accept_compressed {
        let length = blob.len() as u64;
        Ok(DownloadPayload { bytes: blob, length, is_compressed: true })
    } else {
        match decode(&blob) {
            Ok(bytes) => {
                let length = bytes.len() as u64;
                Ok(DownloadPayload { bytes, length, is_compressed: false })
            },
            Err(e) => Err(e),
        }
    }
}

/// Checks that a candidate secret authorizes deletion of the record
/// under `id`: the record must exist and the candidate must hash to its
/// stored deletion key. Mutates nothing; after success the boundary
/// layer removes the blob file and then the metadata
/// (`remove_file_info`), in that order.
///
/// Every outcome is decided by the store's contents and the candidate,
/// except a backend failure, which is reported as `Storage`, never
/// folded into `NotFound`.
pub fn delete_file(id: &Vec<u8>, candidate_secret: &Vec<u8>, db: &sled::Db) -> (r: Result<
    FileInfo,
    DeleteError,
>)
    ensures
        r matches Ok(info) ==> meta_lookup(kv_map(*db), id@) == Some(info@) && verify_spec(
            candidate_secret@,
            info@,
        ),
        r == Err::<FileInfo, DeleteError>(DeleteError::KeyMismatch) ==> (meta_lookup(
            kv_map(*db),
            id@,
        ) matches Some(i) && !verify_spec(candidate_secret@, i)),
        r == Err::<FileInfo, DeleteError>(DeleteError::NotFound) ==> meta_lookup(
            kv_map(*db),
            id@,
        ) is None,
        meta_lookup(kv_map(*db), id@) is None ==> r == Err::<FileInfo, DeleteError>(
            DeleteError::NotFound,
        ) || (r matches Err(e) && e is Storage),
        r matches Err(DeleteError::Storage(se)) ==> se is Io,
{
    let key = meta_key(id);
    let bytes = match kv_get(db, &key) {
        Ok(Some(b)) => b,
        Ok(None) => { return Err(DeleteError::NotFound); },
        Err(e) => { return Err(DeleteError::Storage(e)); },
    };
    let info = match decode_file_info(&bytes) {
        None => { return Err(DeleteError::NotFound); },
        Some(i) => i,
    };
    if !verify_deletion_key(candidate_secret, &info) {
        return Err(DeleteError::KeyMismatch);
    }
    Ok(info)
}

} // verus!
