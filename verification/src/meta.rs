//! The metadata store: records persisted in the ordered key-value store
//! under `metadata:{id}`, in the version-1 binary encoding.

use vstd::bytes::spec_u64_to_le_bytes;
use vstd::prelude::*;
use crate::encoding::{decode_file_info, encode_file_info, lemma_encode_decode};
use crate::errors::StoreError;
use crate::keys::{ledger_key_spec, lemma_key_namespaces_disjoint, meta_key, meta_key_spec};
use crate::kv::{kv_get, kv_insert, kv_map, kv_remove};
use crate::ledger::{
    cleaned, entry_credit, lemma_credit_sum_agree, stale_keys, window_lo, window_sum,
};
use crate::record::{decode_spec, encode_spec, FileInfo, FileInfoView};

verus! {

/// The record a store holds for an identifier: present and decodable, or
/// nothing. A present entry that fails to decode counts as nothing.
pub open spec fn meta_lookup(m: Map<Seq<u8>, Seq<u8>>, id: Seq<u8>) -> Option<FileInfoView> {
    if m.dom().contains(meta_key_spec(id)) {
        decode_spec(m[meta_key_spec(id)])
    } else {
        None
    }
}

/// Persists a record's metadata under its identifier, silently
/// overwriting an existing record; uniqueness of identifiers is the
/// caller's duty. (The blob bytes travel to the boundary layer through
/// `upload`'s result; only metadata is written here.)
pub fn store_file(file_info: &FileInfo, db: &mut sled::Db) -> (r: Result<(), StoreError>)
    ensures
        match r {
            Ok(_) => {
                &&& kv_map(*final(db)) == kv_map(*old(db)).insert(
                    meta_key_spec(file_info.id@),
                    encode_spec(file_info@),
                )
                &&& meta_lookup(kv_map(*final(db)), file_info.id@) == Some(file_info@)
            },
            Err(e) => e is Io,
        },
{
    let encoded = encode_file_info(file_info);
    let key = meta_key(&file_info.id);
    let r = kv_insert(db, &key, encoded);
    proof {
        assert(file_info.mime_type.len() == file_info.mime_type@.len());
        assert(file_info.deletion_key.len() == file_info.deletion_key@.len());
        assert(file_info.id.len() == file_info.id@.len());
        assert(file_info.name.len() == file_info.name@.len());
        lemma_encode_decode(file_info@);
    }
    r
}

/// Looks a record up by identifier. Yields `None` when the identifier is
/// absent, when the stored bytes fail to decode, and when the store
/// itself fails; a decodable record is returned as stored.
pub fn read_file_info(id: &Vec<u8>, db: &sled::Db) -> (r: Option<FileInfo>)
    ensures
        match r {
            Some(info) => meta_lookup(kv_map(*db), id@) == Some(info@),
            None => true,
        },
        meta_lookup(kv_map(*db), id@) is None ==> r is None,
{
    let key = meta_key(id);
    match kv_get(db, &key) {
        Ok(Some(bytes)) => decode_file_info(&bytes),
        Ok(None) => None,
        Err(_) => None,
    }
}

/// Deletes the metadata of an identifier; a no-op when absent.
pub fn remove_file_info(id: &Vec<u8>, db: &mut sled::Db) -> (r: Result<(), StoreError>)
    ensures
        match r {
            Ok(_) => {
                &&& kv_map(*final(db)) == kv_map(*old(db)).remove(meta_key_spec(id@))
                &&& meta_lookup(kv_map(*final(db)), id@) is None
            },
            Err(e) => e is Io,
        },
{
    let key = meta_key(id);
    kv_remove(db, &key)
}

/// Metadata half of the consistency law: a freshly stored record is what
/// lookup under its identifier yields, and after removal the lookup
/// yields nothing.
pub proof fn lemma_meta_consistency(m: Map<Seq<u8>, Seq<u8>>, info: FileInfoView, id: Seq<u8>)
    requires
        info.mime_type.len() <= u64::MAX,
        info.deletion_key.len() <= u64::MAX,
        info.id.len() <= u64::MAX,
        info.name.len() <= u64::MAX,
    ensures
        meta_lookup(m.insert(meta_key_spec(info.id), encode_spec(info)), info.id) == Some(info),
        meta_lookup(m.remove(meta_key_spec(id)), id) is None,
{
    lemma_encode_decode(info);
}

/// Charging or cleaning a token's ledger never touches a metadata
/// record: lookups see the same record before and after.
pub proof fn lemma_ledger_ops_preserve_metadata(
    m: Map<Seq<u8>, Seq<u8>>,
    token: Seq<u8>,
    now: u64,
    window: u64,
    cost: u64,
    id: Seq<u8>,
)
    ensures
        meta_lookup(cleaned(m, token, now, window), id) == meta_lookup(m, id),
        meta_lookup(
            cleaned(m, token, now, window).insert(
                ledger_key_spec(token, now),
                spec_u64_to_le_bytes(cost),
            ),
            id,
        ) == meta_lookup(m, id),
{
    let mk = meta_key_spec(id);
    lemma_key_namespaces_disjoint(id, token, now);
    assert(!stale_keys(m, token, now, window).contains(mk)) by {
        assert forall|ts: u64| mk != ledger_key_spec(token, ts) by {
            lemma_key_namespaces_disjoint(id, token, ts);
        }
    }
}

/// Writing or removing metadata never changes a token's recorded charge
/// in any window.
pub proof fn lemma_metadata_ops_preserve_ledger(
    m: Map<Seq<u8>, Seq<u8>>,
    id: Seq<u8>,
    value: Seq<u8>,
    token: Seq<u8>,
    now: u64,
    window: u64,
)
    ensures
        window_sum(m.insert(meta_key_spec(id), value), token, now, window) == window_sum(
            m,
            token,
            now,
            window,
        ),
        window_sum(m.remove(meta_key_spec(id)), token, now, window) == window_sum(
            m,
            token,
            now,
            window,
        ),
{
    let mk = meta_key_spec(id);
    assert forall|ts: u64|
        window_lo(now, window) <= ts <= now implies entry_credit(
        m.insert(mk, value),
        token,
        ts,
    ) == entry_credit(m, token, ts) && entry_credit(m.remove(mk), token, ts) == entry_credit(
        m,
        token,
        ts,
    ) by {
        lemma_key_namespaces_disjoint(id, token, ts);
    }
    lemma_credit_sum_agree(m.insert(mk, value), m, token, window_lo(now, window), now as int);
    lemma_credit_sum_agree(m.remove(mk), m, token, window_lo(now, window), now as int);
}

/// Deletion law: once a record's metadata is removed, and for any
/// identifier that was never stored, the lookup that serves downloads
/// misses — the boundary layer surfaces the miss as its not-found
/// answer, never as a crash.
pub proof fn lemma_deleted_is_not_found(m: Map<Seq<u8>, Seq<u8>>, id: Seq<u8>)
    ensures
        meta_lookup(m.remove(meta_key_spec(id)), id) is None,
        !m.dom().contains(meta_key_spec(id)) ==> meta_lookup(m, id) is None,
{
}

} // verus!
