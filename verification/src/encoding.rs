//! Executable encoder and decoder for [`FileInfo`] records, proved against
//! the version-1 schema in [`crate::record`], with the round-trip law.

use vstd::bytes::*;
use vstd::prelude::*;
use crate::bytes_util::{append_bytes, copy_range};
use crate::record::{encode_bytes_field, encode_spec, decode_spec, take_field, take_u64, FileInfo, FileInfoView};

verus! {

/// Appends an 8-byte little-endian integer.
fn push_u64(dst: &mut Vec<u8>, x: u64)
    ensures
        final(dst)@ == old(dst)@ + spec_u64_to_le_bytes(x),
{
    let le = u64_to_le_bytes(x);
    append_bytes(dst, &le);
}

/// Appends a length-prefixed byte-string field.
fn push_field(dst: &mut Vec<u8>, src: &Vec<u8>)
    ensures
        final(dst)@ == old(dst)@ + encode_bytes_field(src@),
{
    push_u64(dst, src.len() as u64);
    append_bytes(dst, src);
    proof {
        assert(final(dst)@ =~= old(dst)@ + encode_bytes_field(src@));
    }
}

/// Encodes a record with the version-1 schema.
pub fn encode_file_info(info: &FileInfo) -> (r: Vec<u8>)
    ensures
        r@ == encode_spec(info@),
{
    let mut out: Vec<u8> = Vec::new();
    out.push(1u8);
    push_field(&mut out, &info.mime_type);
    push_u64(&mut out, info.upload_date);
    push_field(&mut out, &info.deletion_key);
    push_field(&mut out, &info.id);
    push_field(&mut out, &info.name);
    push_u64(&mut out, info.size);
    proof {
        assert(out@ =~= encode_spec(info@));
    }
    out
}

/// Reads a length-prefixed field at offset `i`.
fn read_field_at(b: &Vec<u8>, i: usize) -> (r: Option<(Vec<u8>, usize)>)
    requires
        i <= b.len(),
    ensures
        match r {
            Some(p) => take_field(b@, i as int) == Some((p.0@, p.1 as int)) && i < p.1 <= b.len(),
            None => take_field(b@, i as int) is None,
        },
{
    if b.len() - i < 8 {
        return None;
    }
    let lenbuf = copy_range(b, i, i + 8);
    let n = u64_from_le_bytes(lenbuf.as_slice());
    if n > ((b.len() - (i + 8)) as u64) {
        return None;
    }
    let n_us = n as usize;
    let f = copy_range(b, i + 8, i + 8 + n_us);
    Some((f, i + 8 + n_us))
}

/// Reads an 8-byte little-endian integer at offset `i`.
fn read_u64_at(b: &Vec<u8>, i: usize) -> (r: Option<(u64, usize)>)
    requires
        i <= b.len(),
    ensures
        match r {
            Some(p) => take_u64(b@, i as int) == Some((p.0, p.1 as int)) && i < p.1 <= b.len(),
            None => take_u64(b@, i as int) is None,
        },
{
    if b.len() - i < 8 {
        return None;
    }
    let lenbuf = copy_range(b, i, i + 8);
    let x = u64_from_le_bytes(lenbuf.as_slice());
    Some((x, i + 8))
}

/// Decodes version-1 bytes back into a record. Returns `None` exactly on
/// input that the version-1 encoder does not produce.
pub fn decode_file_info(b: &Vec<u8>) -> (r: Option<FileInfo>)
    ensures
        match r {
            Some(info) => decode_spec(b@) == Some(info@),
            None => decode_spec(b@) is None,
        },
{
    if b.len() < 1 {
        return None;
    }
    if b[0] != 1 {
        return None;
    }
    let (mime, i1) = match read_field_at(b, 1) {
        None => { return None; },
        Some(x) => x,
    };
    let (date, i2) = match read_u64_at(b, i1) {
        None => { return None; },
        Some(x) => x,
    };
    let (dk, i3) = match read_field_at(b, i2) {
        None => { return None; },
        Some(x) => x,
    };
    let (id, i4) = match read_field_at(b, i3) {
        None => { return None; },
        Some(x) => x,
    };
    let (name, i5) = match read_field_at(b, i4) {
        None => { return None; },
        Some(x) => x,
    };
    let (size, i6) = match read_u64_at(b, i5) {
        None => { return None; },
        Some(x) => x,
    };
    if i6 != b.len() {
        return None;
    }
    Some(
        FileInfo {
            mime_type: mime,
            upload_date: date,
            deletion_key: dk,
            id: id,
            name: name,
            size: size,
        },
    )
}

/// If a block of `b` starting at `i` is a length-prefixed field, reading
/// at `i` yields exactly that field.
proof fn lemma_take_field_at(b: Seq<u8>, i: int, f: Seq<u8>)
    requires
        0 <= i,
        i + 8 + f.len() <= b.len(),
        f.len() <= u64::MAX,
        b.subrange(i, i + 8 + f.len()) == encode_bytes_field(f),
    ensures
        take_field(b, i) == Some((f, i + 8 + f.len())),
{
    lemma_auto_spec_u64_to_from_le_bytes();
    let block = encode_bytes_field(f);
    assert(spec_u64_to_le_bytes(f.len() as u64).len() == 8);
    assert(b.subrange(i, i + 8) =~= block.subrange(0, 8));
    assert(block.subrange(0, 8) =~= spec_u64_to_le_bytes(f.len() as u64));
    assert(spec_u64_from_le_bytes(b.subrange(i, i + 8)) == f.len() as u64);
    assert(b.subrange(i + 8, i + 8 + f.len()) =~= block.subrange(8, 8 + f.len() as int));
    assert(block.subrange(8, 8 + f.len() as int) =~= f);
}

/// If 8 bytes of `b` starting at `i` encode `x`, reading at `i` yields `x`.
proof fn lemma_take_u64_at(b: Seq<u8>, i: int, x: u64)
    requires
        0 <= i,
        i + 8 <= b.len(),
        b.subrange(i, i + 8) == spec_u64_to_le_bytes(x),
    ensures
        take_u64(b, i) == Some((x, i + 8)),
{
    lemma_auto_spec_u64_to_from_le_bytes();
}

/// Round trip: decoding an encoded record yields the record.
pub proof fn lemma_encode_decode(r: FileInfoView)
    requires
        r.mime_type.len() <= u64::MAX,
        r.deletion_key.len() <= u64::MAX,
        r.id.len() <= u64::MAX,
        r.name.len() <= u64::MAX,
    ensures
        decode_spec(encode_spec(r)) == Some(r),
{
    lemma_auto_spec_u64_to_from_le_bytes();
    let b = encode_spec(r);
    let i1 = 1 + 8 + r.mime_type.len();
    let i2 = i1 + 8;
    let i3 = i2 + 8 + r.deletion_key.len();
    let i4 = i3 + 8 + r.id.len();
    let i5 = i4 + 8 + r.name.len();
    let i6 = i5 + 8;
    assert(b.len() == i6);
    assert(b[0] == 1);
    assert(b.subrange(1, i1 as int) =~= encode_bytes_field(r.mime_type));
    lemma_take_field_at(b, 1, r.mime_type);
    assert(b.subrange(i1 as int, i2 as int) =~= spec_u64_to_le_bytes(r.upload_date));
    lemma_take_u64_at(b, i1 as int, r.upload_date);
    assert(b.subrange(i2 as int, i3 as int) =~= encode_bytes_field(r.deletion_key));
    lemma_take_field_at(b, i2 as int, r.deletion_key);
    assert(b.subrange(i3 as int, i4 as int) =~= encode_bytes_field(r.id));
    lemma_take_field_at(b, i3 as int, r.id);
    assert(b.subrange(i4 as int, i5 as int) =~= encode_bytes_field(r.name));
    lemma_take_field_at(b, i4 as int, r.name);
    assert(b.subrange(i5 as int, i6 as int) =~= spec_u64_to_le_bytes(r.size));
    lemma_take_u64_at(b, i5 as int, r.size);
}

} // verus!
