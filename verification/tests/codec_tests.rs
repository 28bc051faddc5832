use filebin::{codec_round_trip, decode, decode_file_info, encode_file_info, FileInfo};

fn sample_info() -> FileInfo {
    FileInfo {
        mime_type: b"text/plain".to_vec(),
        upload_date: 1700000000,
        deletion_key: b"hash-text".to_vec(),
        id: b"id42".to_vec(),
        name: b"greeting.txt".to_vec(),
        size: 5,
    }
}

#[test]
fn codec_round_trip_empty() {
    let out = codec_round_trip(&Vec::new());
    assert_eq!(out, Vec::<u8>::new());
}

#[test]
fn codec_round_trip_binary() {
    let mut payload: Vec<u8> = Vec::new();
    for i in 0..4096u32 {
        payload.push((i % 256) as u8);
        payload.push(0);
        payload.push(255);
    }
    let out = codec_round_trip(&payload);
    assert_eq!(out, payload);
}

#[test]
fn decode_rejects_garbage() {
    assert!(decode(&Vec::new()).is_err());
    assert!(decode(&vec![0xff, 0x00, 0x12, 0x34, 0x56]).is_err());
}

#[test]
fn record_encoding_round_trip() {
    let info = sample_info();
    let bytes = encode_file_info(&info);
    let back = decode_file_info(&bytes).expect("encoded record did not decode");
    assert_eq!(back, info);
}

#[test]
fn record_encoding_exact_layout() {
    let info = FileInfo {
        mime_type: b"a".to_vec(),
        upload_date: 2,
        deletion_key: b"bc".to_vec(),
        id: b"d".to_vec(),
        name: b"e".to_vec(),
        size: 3,
    };
    let bytes = encode_file_info(&info);
    let mut expected: Vec<u8> = Vec::new();
    expected.push(1);
    expected.extend_from_slice(&1u64.to_le_bytes());
    expected.push(b'a');
    expected.extend_from_slice(&2u64.to_le_bytes());
    expected.extend_from_slice(&2u64.to_le_bytes());
    expected.extend_from_slice(b"bc");
    expected.extend_from_slice(&1u64.to_le_bytes());
    expected.push(b'd');
    expected.extend_from_slice(&1u64.to_le_bytes());
    expected.push(b'e');
    expected.extend_from_slice(&3u64.to_le_bytes());
    assert_eq!(bytes, expected);
}

#[test]
fn record_decoding_rejects_bad_input() {
    let info = sample_info();
    let good = encode_file_info(&info);

    // unknown version
    let mut wrong_version = good.clone();
    wrong_version[0] = 2;
    assert!(decode_file_info(&wrong_version).is_none());

    // truncation
    let mut truncated = good.clone();
    truncated.pop();
    assert!(decode_file_info(&truncated).is_none());

    // trailing bytes
    let mut trailing = good.clone();
    trailing.push(0);
    assert!(decode_file_info(&trailing).is_none());

    // empty input
    assert!(decode_file_info(&Vec::new()).is_none());
}
