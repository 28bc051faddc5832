//! Deterministic derivation of store keys and blob file paths.
//!
//! Metadata lives under `metadata:{id}`; ledger entries live under
//! `ratelimit:{token}:{timestamp}` with the timestamp in canonical
//! decimal (seconds); blobs live at `{blob_root}/{id}.br`.

use vstd::prelude::*;
use crate::bytes_util::{append_bytes, dec_digits, format_u64};
use crate::config::PrivAppConfig;

verus! {

/// The bytes of `metadata:`.
pub open spec fn meta_prefix() -> Seq<u8> {
    seq![109u8, 101u8, 116u8, 97u8, 100u8, 97u8, 116u8, 97u8, 58u8]
}

/// The bytes of `ratelimit:`.
pub open spec fn ratelimit_prefix() -> Seq<u8> {
    seq![114u8, 97u8, 116u8, 101u8, 108u8, 105u8, 109u8, 105u8, 116u8, 58u8]
}

/// The metadata key of an identifier.
pub open spec fn meta_key_spec(id: Seq<u8>) -> Seq<u8> {
    meta_prefix() + id
}

/// The prefix under which one token's ledger entries live, colon
/// included.
pub open spec fn ledger_prefix_spec(token: Seq<u8>) -> Seq<u8> {
    ratelimit_prefix() + token + seq![58u8]
}

/// The ledger key of one admission: token prefix plus the admission time
/// in canonical decimal seconds.
pub open spec fn ledger_key_spec(token: Seq<u8>, ts: u64) -> Seq<u8> {
    ledger_prefix_spec(token) + dec_digits(ts as nat)
}

/// Builds the metadata key of an identifier.
pub fn meta_key(id: &Vec<u8>) -> (r: Vec<u8>)
    ensures
        r@ == meta_key_spec(id@),
{
    let mut v: Vec<u8> = vec![109, 101, 116, 97, 100, 97, 116, 97, 58];
    proof {
        assert(v@ =~= meta_prefix());
    }
    append_bytes(&mut v, id);
    v
}

/// Builds the scan prefix of a token's ledger entries.
pub fn ledger_prefix(token: &Vec<u8>) -> (r: Vec<u8>)
    ensures
        r@ == ledger_prefix_spec(token@),
{
    let mut v: Vec<u8> = vec![114, 97, 116, 101, 108, 105, 109, 105, 116, 58];
    proof {
        assert(v@ =~= ratelimit_prefix());
    }
    append_bytes(&mut v, token);
    v.push(58);
    proof {
        assert(v@ =~= ledger_prefix_spec(token@));
    }
    v
}

/// Builds the ledger key of an admission at `ts`.
pub fn ledger_key(token: &Vec<u8>, ts: u64) -> (r: Vec<u8>)
    ensures
        r@ == ledger_key_spec(token@, ts),
{
    let mut v = ledger_prefix(token);
    let digits = format_u64(ts);
    append_bytes(&mut v, &digits);
    v
}

/// The on-disk location of a blob: `{blob_root}/{id}.br`, as path bytes.
pub fn file_path_from_id(id: &Vec<u8>, config: &PrivAppConfig) -> (r: Vec<u8>)
    ensures
        r@ == config.blob_path@ + seq![47u8] + id@ + seq![46u8, 98u8, 114u8],
{
    let mut v: Vec<u8> = Vec::new();
    append_bytes(&mut v, &config.blob_path);
    v.push(47);
    append_bytes(&mut v, id);
    v.push(46);
    v.push(98);
    v.push(114);
    proof {
        assert(v@ =~= config.blob_path@ + seq![47u8] + id@ + seq![46u8, 98u8, 114u8]);
    }
    v
}

/// Metadata keys and ledger keys never collide: the two stores share
/// the engine but not a namespace.
pub proof fn lemma_key_namespaces_disjoint(id: Seq<u8>, token: Seq<u8>, ts: u64)
    ensures
        meta_key_spec(id) != ledger_key_spec(token, ts),
{
    assert(meta_key_spec(id)[0] == 109);
    assert(ledger_key_spec(token, ts)[0] == 114);
}

} // verus!
