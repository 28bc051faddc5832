use base64::URL_SAFE_NO_PAD;
use sha3::{Digest, Sha3_512};
use filebin::{
    delete_file, download, file_path_from_id, get_download_link, issue_deletion_key,
    read_file_info, remove_file_info, should_preview, store_file, unique_id, upload,
    verify_deletion_key, AppConfig, DeleteError, FileInfo, PrivAppConfig, UploadError,
};

fn open_db() -> sled::Db {
    sled::Config::new().temporary(true).open().expect("could not open temporary store")
}

fn config(limit: u64, window: u64) -> AppConfig {
    let mut c = AppConfig::default();
    c.ratelimit_period_byte_limit = limit;
    c.ratelimit_period_length = window;
    c
}

fn secs(s: u64) -> u128 {
    (s as u128) * 1_000_000_000
}

#[test]
fn upload_quota_scenario() {
    let mut db = open_db();
    let cfg = config(15, 60);
    let token = b"tok1".to_vec();
    let payload = b"0123456789".to_vec();

    let first = upload(&mut db, &payload, b"text/plain".to_vec(), b"a.txt".to_vec(), &token,
        secs(1000), &cfg);
    assert!(first.is_ok());

    let second = upload(&mut db, &payload, b"text/plain".to_vec(), b"b.txt".to_vec(), &token,
        secs(1000), &cfg);
    assert!(matches!(second, Err(UploadError::RateLimitExceeded)));

    let third = upload(&mut db, &payload, b"text/plain".to_vec(), b"c.txt".to_vec(), &token,
        secs(1061), &cfg);
    assert!(third.is_ok());
}

#[test]
fn upload_delete_download_scenario() {
    let mut db = open_db();
    let cfg = config(1000, 60);
    let token = b"client".to_vec();

    let outcome = upload(&mut db, &b"hello".to_vec(), b"text/plain".to_vec(),
        b"hello.txt".to_vec(), &token, secs(500), &cfg).expect("upload refused");
    store_file(&outcome.file_info, &mut db).expect("metadata write failed");
    let id = outcome.file_info.id.clone();

    let stored = read_file_info(&id, &db).expect("record missing after upload");
    assert_eq!(stored.name, b"hello.txt".to_vec());
    assert_eq!(stored.size, 5);
    assert_eq!(stored.upload_date, 500);
    assert_ne!(stored.deletion_key, outcome.deletion_secret);

    // the stored blob decodes back to the payload
    let served = download(outcome.compressed.clone(), false).expect("decode failed");
    assert_eq!(served.bytes, b"hello".to_vec());
    assert!(!served.is_compressed);
    let passthrough = download(outcome.compressed.clone(), true).expect("passthrough failed");
    assert_eq!(passthrough.bytes, outcome.compressed);
    assert_eq!(passthrough.length as usize, outcome.compressed.len());

    // wrong key is refused, the right key authorizes
    let wrong = delete_file(&id, &b"wrong-key".to_vec(), &db);
    assert!(matches!(wrong, Err(DeleteError::KeyMismatch)));
    let authorized = delete_file(&id, &outcome.deletion_secret, &db).expect("right key refused");
    assert_eq!(authorized.id, id);
    remove_file_info(&id, &mut db).expect("metadata removal failed");

    // afterwards the record is gone
    assert!(read_file_info(&id, &db).is_none());
    let again = delete_file(&id, &outcome.deletion_secret, &db);
    assert!(matches!(again, Err(DeleteError::NotFound)));
}

#[test]
fn delete_unknown_id_is_not_found() {
    let db = open_db();
    let r = delete_file(&b"nope".to_vec(), &b"key".to_vec(), &db);
    assert!(matches!(r, Err(DeleteError::NotFound)));
}

#[test]
fn metadata_overwrites_silently() {
    let mut db = open_db();
    let mut info = FileInfo {
        mime_type: b"text/plain".to_vec(),
        upload_date: 1,
        deletion_key: b"k1".to_vec(),
        id: b"same-id".to_vec(),
        name: b"first".to_vec(),
        size: 1,
    };
    store_file(&info, &mut db).unwrap();
    info.name = b"second".to_vec();
    store_file(&info, &mut db).unwrap();
    let stored = read_file_info(&b"same-id".to_vec(), &db).unwrap();
    assert_eq!(stored.name, b"second".to_vec());
}

#[test]
fn corrupt_metadata_reads_as_absent() {
    let mut db = open_db();
    db.insert(b"metadata:broken", b"not a record".to_vec()).unwrap();
    assert!(read_file_info(&b"broken".to_vec(), &mut db).is_none());
}

#[test]
fn deletion_key_hash_matches_salted_digest() {
    let tag = issue_deletion_key(&b"secret".to_vec(), &b"file.bin".to_vec());
    let mut hasher = Sha3_512::new();
    hasher.update(b"secret");
    hasher.update(b"file.bin");
    let expected = base64::encode_config(hasher.finalize(), URL_SAFE_NO_PAD).into_bytes();
    assert_eq!(tag, expected);
    // 86 bytes of base64 text: never the shape of a 36-byte plaintext secret
    assert_eq!(tag.len(), 86);
}

#[test]
fn deletion_key_verification() {
    let secret = b"the-one-secret".to_vec();
    let info = FileInfo {
        mime_type: b"text/plain".to_vec(),
        upload_date: 9,
        deletion_key: issue_deletion_key(&secret, &b"doc.txt".to_vec()),
        id: b"x".to_vec(),
        name: b"doc.txt".to_vec(),
        size: 0,
    };
    assert!(verify_deletion_key(&secret, &info));
    assert!(!verify_deletion_key(&b"another".to_vec(), &info));
    assert!(!verify_deletion_key(&Vec::new(), &info));
}

#[test]
fn deletion_secret_is_fresh_and_hashed() {
    let mut db = open_db();
    let cfg = config(1000, 60);
    let a = upload(&mut db, &b"x".to_vec(), b"a/b".to_vec(), b"n".to_vec(),
        &b"t1".to_vec(), secs(1), &cfg).unwrap();
    let b = upload(&mut db, &b"x".to_vec(), b"a/b".to_vec(), b"n".to_vec(),
        &b"t2".to_vec(), secs(2), &cfg).unwrap();
    assert_eq!(a.deletion_secret.len(), 36);
    assert_ne!(a.deletion_secret, b.deletion_secret);
    assert_eq!(a.file_info.deletion_key,
        issue_deletion_key(&a.deletion_secret, &a.file_info.name));
}

#[test]
fn unique_id_minimal_big_endian() {
    assert_eq!(unique_id(0), Vec::<u8>::new());
    assert_eq!(unique_id(1), b"AQ".to_vec());
    // interior and trailing zero bytes are kept: the encoding is
    // one-to-one, so distinct timestamps give distinct identifiers
    assert_eq!(unique_id(256), b"AQA".to_vec());
    assert_eq!(unique_id(0x0102), b"AQI".to_vec());
    assert_eq!(unique_id(0x01000002), b"AQAAAg".to_vec());
    assert_ne!(unique_id(1), unique_id(256));
}

#[test]
fn download_link_shape() {
    assert_eq!(get_download_link("abc123".to_string()), "/api/file/abc123".to_string());
}

#[test]
fn blob_path_shape() {
    let cfg = PrivAppConfig { sled_path: b"/data/sled".to_vec(), blob_path: b"/data/blob".to_vec() };
    assert_eq!(file_path_from_id(&b"id9".to_vec(), &cfg), b"/data/blob/id9.br".to_vec());
}

#[test]
fn default_config_values() {
    let c = AppConfig::default();
    assert_eq!(c.file_size_limit, 1 << 30);
    assert_eq!(c.ratelimit_period_length, 60 * 60 * 24);
    assert_eq!(c.ratelimit_period_byte_limit, 2u64 << 30);
    assert_eq!(c.sled_cache_cap, 1 << 29);
    assert_eq!(c.port, 8080);
    assert_eq!(c.db_path, b"./filebin_db".to_vec());
}

#[test]
fn empty_payload_round_trips() {
    let mut db = open_db();
    let cfg = config(1000, 60);
    let outcome = upload(&mut db, &Vec::new(), b"application/octet-stream".to_vec(),
        b"empty.bin".to_vec(), &b"t".to_vec(), secs(3), &cfg).expect("empty upload refused");
    assert_eq!(outcome.file_info.size, 0);
    let served = download(outcome.compressed, false).expect("decode failed");
    assert_eq!(served.bytes, Vec::<u8>::new());
    assert_eq!(served.length, 0);
}

#[test]
fn delete_of_undecodable_record_is_not_found() {
    let db = open_db();
    db.insert(b"metadata:mangled", b"not a record".to_vec()).unwrap();
    let r = delete_file(&b"mangled".to_vec(), &b"any".to_vec(), &db);
    assert!(matches!(r, Err(DeleteError::NotFound)));
}

#[test]
fn preview_filter_accepts_media_and_refuses_the_rest() {
    let cfg = AppConfig::default();
    assert!(should_preview("image/png", &cfg));
    assert!(should_preview("text/plain", &cfg));
    assert!(should_preview("application/json", &cfg));
    assert!(!should_preview("application/pdf", &cfg));
    assert!(!should_preview("text/html", &cfg));

    let mut broken = AppConfig::default();
    broken.allowed_preview_mime_regex = "(".to_string();
    assert!(!should_preview("image/png", &broken));
}
