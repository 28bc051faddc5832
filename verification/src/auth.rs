//! The deletion authenticator: a random secret is revealed to the
//! uploader once; only its salted one-way hash is persisted, and removal
//! is permitted exactly when a candidate secret hashes to the stored
//! value.
//!
//! The hash of a secret is SHA3-512 over the secret followed by the file
//! name (the per-record salt), rendered as unpadded URL-safe base64 text.

use sha3::{Digest, Sha3_512};
use vstd::prelude::*;
use crate::bytes_util::{append_bytes, bytes_eq};
use crate::record::{FileInfo, FileInfoView};

verus! {

/// The SHA3-512 digest of a byte string: a function of the input alone.
pub uninterp spec fn sha3_512_of(data: Seq<u8>) -> Seq<u8>;

/// The unpadded URL-safe base64 text of a byte string: a function of the
/// input alone.
pub uninterp spec fn base64_url_of(data: Seq<u8>) -> Seq<u8>;

/// Relies on sha3::Sha3_512 (Digest::digest): a 64-byte digest that
/// depends on the input bytes alone.
#[verifier::external_body]
pub(crate) fn sha3_512(data: &Vec<u8>) -> (r: Vec<u8>)
    ensures
        r@ == sha3_512_of(data@),
        r@.len() == 64,
{
    Sha3_512::digest(data.as_slice()).to_vec()
}

/// Relies on base64::encode_config with the URL_SAFE_NO_PAD alphabet:
/// ASCII text that depends on the input bytes alone. Unpadded base64 of
/// `n` bytes is `ceil(4n/3)` characters, and the encoding is injective
/// (decode_config inverts it).
#[verifier::external_body]
pub(crate) fn base64_url(data: &Vec<u8>) -> (r: Vec<u8>)
    ensures
        r@ == base64_url_of(data@),
        r@.len() == (data@.len() * 4 + 2) / 3,
        forall|other: Seq<u8>| base64_url_of(other) == r@ ==> other == data@,
{
    base64::encode_config(data.as_slice(), base64::URL_SAFE_NO_PAD).into_bytes()
}

/// Relies on uuid::Uuid::new_v4 and its hyphenated text form, which is
/// always 36 ASCII characters: a freshly drawn random secret. Nothing is
/// assumed about which value comes back.
#[verifier::external_body]
pub(crate) fn new_deletion_secret() -> (r: Vec<u8>)
    ensures
        r@.len() == 36,
{
    uuid::Uuid::new_v4().to_string().into_bytes()
}

/// The stored deletion-key hash for a secret and a record's salt.
pub open spec fn tag_of(secret: Seq<u8>, salt: Seq<u8>) -> Seq<u8> {
    base64_url_of(sha3_512_of(secret + salt))
}

/// Whether a candidate secret authorizes deletion of a record.
pub open spec fn verify_spec(candidate: Seq<u8>, rec: FileInfoView) -> bool {
    tag_of(candidate, rec.name) == rec.deletion_key
}

/// Computes the hash persisted for a deletion secret, salted with the
/// record's file name: 86 bytes, the unpadded base64 text of the 64-byte
/// digest.
pub fn issue_deletion_key(secret: &Vec<u8>, name: &Vec<u8>) -> (r: Vec<u8>)
    ensures
        r@ == tag_of(secret@, name@),
        r@.len() == 86,
{
    let mut buf: Vec<u8> = Vec::new();
    append_bytes(&mut buf, secret);
    append_bytes(&mut buf, name);
    let digest = sha3_512(&buf);
    base64_url(&digest)
}

/// Re-hashes the candidate with the record's salt and compares to the
/// stored hash. The comparison inspects every byte when the lengths
/// agree, rather than stopping at the first difference.
pub fn verify_deletion_key(candidate: &Vec<u8>, info: &FileInfo) -> (r: bool)
    ensures
        r == verify_spec(candidate@, info@),
{
    let tag = issue_deletion_key(candidate, &info.name);
    bytes_eq(&tag, &info.deletion_key)
}

/// Deletion-key law: a record issued with secret `s` verifies under `s`,
/// and a candidate whose salted hash differs from that of `s` is refused.
/// (Two distinct secrets whose salted digests collide would both verify;
/// ruling that out is collision resistance of the hash, which no proof
/// here can supply.)
pub proof fn lemma_deletion_key_correctness(s: Seq<u8>, c: Seq<u8>, rec: FileInfoView)
    requires
        rec.deletion_key == tag_of(s, rec.name),
    ensures
        verify_spec(s, rec),
        tag_of(c, rec.name) != tag_of(s, rec.name) ==> !verify_spec(c, rec),
{
}

} // verus!
