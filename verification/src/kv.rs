//! Trusted boundary to the embedded ordered key-value store (sled).
//!
//! The store is modelled as a mathematical map from byte keys to byte
//! values, named by `kv_map`. Every verified component speaks about the
//! store only through that map and the wrappers below.

use vstd::prelude::*;
use crate::errors::StoreError;

verus! {

#[verifier::external_type_specification]
#[verifier::external_body]
pub struct ExDb(sled::Db);

/// The contents of the store: the map from keys to values that the tree
/// currently holds.
pub uninterp spec fn kv_map(db: sled::Db) -> Map<Seq<u8>, Seq<u8>>;

/// Relies on sled::Tree::get: returns the value of the key, or `None` if
/// the key is absent. Single-key reads are atomic.
#[verifier::external_body]
pub(crate) fn kv_get(db: &sled::Db, key: &Vec<u8>) -> (r: Result<Option<Vec<u8>>, StoreError>)
    ensures
        match r {
            Ok(Some(v)) => kv_map(*db).dom().contains(key@) && v@ == kv_map(*db)[key@],
            Ok(None) => !kv_map(*db).dom().contains(key@),
            Err(e) => e is Io,
        },
{
    match db.get(key) {
        Ok(Some(v)) => Ok(Some(v.to_vec())),
        Ok(None) => Ok(None),
        Err(e) => Err(StoreError::Io(format!("{}", e))),
    }
}

/// Relies on sled::Tree::insert: sets the key to the value, atomically for
/// this single key.
#[verifier::external_body]
pub(crate) fn kv_insert(db: &mut sled::Db, key: &Vec<u8>, value: Vec<u8>) -> (r: Result<
    (),
    StoreError,
>)
    ensures
        match r {
            Ok(_) => kv_map(*final(db)) == kv_map(*old(db)).insert(key@, value@),
            Err(e) => e is Io,
        },
{
    match db.insert(key.as_slice(), value) {
        Ok(_) => Ok(()),
        Err(e) => Err(StoreError::Io(format!("{}", e))),
    }
}

/// Relies on sled::Tree::remove: deletes the key, atomically for this
/// single key; succeeds whether or not the key was present.
#[verifier::external_body]
pub(crate) fn kv_remove(db: &mut sled::Db, key: &Vec<u8>) -> (r: Result<(), StoreError>)
    ensures
        match r {
            Ok(_) => kv_map(*final(db)) == kv_map(*old(db)).remove(key@),
            Err(e) => e is Io,
        },
{
    match db.remove(key.as_slice()) {
        Ok(_) => Ok(()),
        Err(e) => Err(StoreError::Io(format!("{}", e))),
    }
}

/// What a prefix scan returns: exactly the present keys that start with
/// the prefix, each once, with their values.
pub open spec fn scan_ok(
    entries: Seq<(Vec<u8>, Vec<u8>)>,
    m: Map<Seq<u8>, Seq<u8>>,
    prefix: Seq<u8>,
) -> bool {
    &&& forall|i: int|
        0 <= i < entries.len() ==> {
            &&& prefix.is_prefix_of(#[trigger] entries[i].0@)
            &&& m.dom().contains(entries[i].0@)
            &&& m[entries[i].0@] == entries[i].1@
        }
    &&& forall|k: Seq<u8>|
        #[trigger] m.dom().contains(k) && prefix.is_prefix_of(k) ==> exists|i: int|
            0 <= i < entries.len() && (#[trigger] entries[i].0@) == k
    &&& forall|i: int, j: int|
        0 <= i < j < entries.len() ==> (#[trigger] entries[i].0@) != (#[trigger] entries[j].0@)
}

/// Relies on sled::Tree::scan_prefix: yields exactly the present keys that
/// start with the prefix, each once, with their values.
#[verifier::external_body]
pub(crate) fn kv_scan_prefix(db: &sled::Db, prefix: &Vec<u8>) -> (r: Result<
    Vec<(Vec<u8>, Vec<u8>)>,
    StoreError,
>)
    ensures
        match r {
            Ok(entries) => scan_ok(entries@, kv_map(*db), prefix@),
            Err(e) => e is Io,
        },
{
    let mut out: Vec<(Vec<u8>, Vec<u8>)> = Vec::new();
    for pair in db.scan_prefix(prefix.as_slice()) {
        match pair {
            Ok((k, v)) => out.push((k.to_vec(), v.to_vec())),
            Err(e) => return Err(StoreError::Io(format!("{}", e))),
        }
    }
    Ok(out)
}

} // verus!
