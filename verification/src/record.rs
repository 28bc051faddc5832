//! The metadata record kept for every stored file, and its compact,
//! versioned binary encoding.
//!
//! Layout (version 1): a version byte `1`, then each byte-string field as
//! an 8-byte little-endian length followed by the bytes, and each integer
//! field as 8 bytes little-endian, in declaration order. The decoder
//! accepts exactly the encodings this version writes; anything else —
//! unknown version, truncation, trailing bytes — decodes to `None`.

use vstd::bytes::*;
use vstd::prelude::*;

verus! {

/// Metadata for one stored file. Byte-string fields hold the UTF-8 bytes
/// of the client-facing strings; times are unix seconds.
#[derive(Debug, Clone, PartialEq, Eq)]
pub struct FileInfo {
    /// Best-effort detected content type.
    pub mime_type: Vec<u8>,
    /// Unix time (seconds) of ingest.
    pub upload_date: u64,
    /// Salted one-way hash of the deletion secret, as unpadded URL-safe
    /// base64 text; never the plaintext secret.
    pub deletion_key: Vec<u8>,
    /// Unique identifier, the join key between metadata and blob.
    pub id: Vec<u8>,
    /// Original client-supplied file name, stored verbatim.
    pub name: Vec<u8>,
    /// Payload size in bytes, measured before compression.
    pub size: u64,
}

/// The mathematical value of a record: its fields as byte sequences.
pub ghost struct FileInfoView {
    pub mime_type: Seq<u8>,
    pub upload_date: u64,
    pub deletion_key: Seq<u8>,
    pub id: Seq<u8>,
    pub name: Seq<u8>,
    pub size: u64,
}

impl View for FileInfo {
    type V = FileInfoView;

    open spec fn view(&self) -> FileInfoView {
        FileInfoView {
            mime_type: self.mime_type@,
            upload_date: self.upload_date,
            deletion_key: self.deletion_key@,
            id: self.id@,
            name: self.name@,
            size: self.size,
        }
    }
}

/// A length-prefixed byte-string field.
pub open spec fn encode_bytes_field(b: Seq<u8>) -> Seq<u8> {
    spec_u64_to_le_bytes(b.len() as u64) + b
}

/// The version-1 encoding of a record.
pub open spec fn encode_spec(r: FileInfoView) -> Seq<u8> {
    seq![1u8] + encode_bytes_field(r.mime_type) + spec_u64_to_le_bytes(r.upload_date)
        + encode_bytes_field(r.deletion_key) + encode_bytes_field(r.id) + encode_bytes_field(r.name)
        + spec_u64_to_le_bytes(r.size)
}

/// Reads a length-prefixed field at offset `i`: the field and the offset
/// after it, or `None` if the bytes do not reach that far.
pub open spec fn take_field(b: Seq<u8>, i: int) -> Option<(Seq<u8>, int)> {
    if i + 8 <= b.len() {
        let n = spec_u64_from_le_bytes(b.subrange(i, i + 8)) as int;
        if i + 8 + n <= b.len() {
            Some((b.subrange(i + 8, i + 8 + n), i + 8 + n))
        } else {
            None
        }
    } else {
        None
    }
}

/// Reads an 8-byte little-endian integer at offset `i`.
pub open spec fn take_u64(b: Seq<u8>, i: int) -> Option<(u64, int)> {
    if i + 8 <= b.len() {
        Some((spec_u64_from_le_bytes(b.subrange(i, i + 8)), i + 8))
    } else {
        None
    }
}

/// What a byte string decodes to under the version-1 schema: the record,
/// or `None` for anything this version does not write.
pub open spec fn decode_spec(b: Seq<u8>) -> Option<FileInfoView> {
    if b.len() < 1 || b[0] != 1 {
        None
    } else {
        match take_field(b, 1) {
            None => None,
            Some((mime, i1)) => match take_u64(b, i1) {
                None => None,
                Some((date, i2)) => match take_field(b, i2) {
                    None => None,
                    Some((dk, i3)) => match take_field(b, i3) {
                        None => None,
                        Some((id, i4)) => match take_field(b, i4) {
                            None => None,
                            Some((name, i5)) => match take_u64(b, i5) {
                                None => None,
                                Some((size, i6)) => if i6 == b.len() {
                                    Some(
                                        FileInfoView {
                                            mime_type: mime,
                                            upload_date: date,
                                            deletion_key: dk,
                                            id: id,
                                            name: name,
                                            size: size,
                                        },
                                    )
                                } else {
                                    None
                                },
                            },
                        },
                    },
                },
            },
        }
    }
}

} // verus!
