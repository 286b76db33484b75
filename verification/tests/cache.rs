use sha2::Digest;
use weight_cdn_pinner::digest::{parse_digest, DigestError};
use weight_cdn_pinner::error::PinError;
use weight_cdn_pinner::model::{is_valid_model_id, strip_0x, ModelEntry};
use weight_cdn_pinner::pinner::{CacheFile, Pinner};

fn sha256(bytes: &[u8]) -> [u8; 32] {
    sha2::Sha256::digest(bytes).into()
}

fn sample_entry(bytes: &[u8], mirrors: Vec<String>) -> ModelEntry {
    ModelEntry {
        model_id: "0x".to_string() + &"01".repeat(32),
        expected_sha256: sha256(bytes),
        mirrors,
        size_bytes: bytes.len() as u64,
    }
}

#[test]
fn cache_path_rejects_traversal_id() {
    let tmp = tempfile::TempDir::new().unwrap();
    let pinner = Pinner::new(tmp.path());
    assert!(pinner.try_cache_path("../etc/passwd").is_err());
    let ok_id = format!("0x{}", "01".repeat(32));
    assert!(pinner.try_cache_path(&ok_id).is_ok());
}

#[test]
fn rejected_id_is_named() {
    let pinner = Pinner::new("/cache");
    match pinner.try_cache_path("../foo") {
        Err(e) => assert_eq!(e, PinError::InvalidModelId("../foo".to_string())),
        Ok(_) => panic!("accepted"),
    }
}

#[test]
fn cache_path_is_a_file_in_the_cache() {
    let pinner = Pinner::new("/cache");
    let digits = "aB".repeat(32);
    let path = pinner.cache_path(&format!("0x{digits}"));
    assert_eq!(*path.root, "/cache");
    assert_eq!(path.file_name, format!("{digits}.bin"));
    assert_eq!(pinner.cache_path(&digits).file_name, path.file_name);
    assert_eq!(pinner.pin_path(&digits).file_name, path.file_name);
    assert_eq!(*pinner.cache_root(), "/cache");
    match pinner.try_cache_path(&digits) {
        Ok(p) => assert_eq!(p.file_name, path.file_name),
        Err(e) => panic!("{}", e.message()),
    }
}

#[test]
fn model_ids_are_64_hex_digits() {
    let digits = "0123456789abcdefABCDEF0123456789abcdefABCDEF0123456789abcdefABCD";
    assert_eq!(digits.len(), 64);
    assert!(is_valid_model_id(digits));
    assert!(is_valid_model_id(&format!("0x{digits}")));
    assert!(!is_valid_model_id(&format!("0X{digits}")));
    assert!(!is_valid_model_id(&format!("0x0x{digits}")));
    assert!(!is_valid_model_id(&digits[1..]));
    assert!(!is_valid_model_id(&format!("{digits}0")));
    assert!(!is_valid_model_id(&digits.replace('a', "g")));
    assert!(!is_valid_model_id(&digits.replace('a', "\u{e4}")));
    assert!(!is_valid_model_id(""));
    assert!(!is_valid_model_id("0x"));
    assert_eq!(strip_0x("0x0x12"), "0x12");
    assert_eq!(strip_0x("12"), "12");
    assert_eq!(strip_0x("0x"), "");
    assert_eq!(strip_0x("0"), "0");
}

#[test]
fn is_cached_returns_false_for_missing() {
    let pinner = Pinner::new("/cache");
    let entry = sample_entry(b"hello world", vec![]);
    assert!(!pinner.is_cached(&entry, &CacheFile::Missing).unwrap());
}

#[test]
fn is_cached_returns_true_for_valid_cache() {
    let pinner = Pinner::new("/cache");
    let entry = sample_entry(b"hello world", vec![]);
    assert!(pinner.is_cached(&entry, &CacheFile::Contents(b"hello world".to_vec())).unwrap());
}

#[test]
fn is_cached_detects_corruption() {
    let pinner = Pinner::new("/cache");
    let entry = sample_entry(b"hello world", vec![]);
    assert!(!pinner.is_cached(&entry, &CacheFile::Contents(b"corrupted".to_vec())).unwrap());
}

#[test]
fn unreadable_cache_is_an_error() {
    let pinner = Pinner::new("/cache");
    let entry = sample_entry(b"hello world", vec![]);
    assert_eq!(
        pinner.is_cached(&entry, &CacheFile::Unreadable("denied".to_string())),
        Err(PinError::Io("denied".to_string()))
    );
}

#[test]
fn serve_hands_the_blob_out() {
    let pinner = Pinner::new("/cache");
    let id = "01".repeat(32);
    assert_eq!(pinner.serve(&id, Ok(vec![1, 2, 3])), Ok(vec![1, 2, 3]));
    assert_eq!(
        pinner.serve(&id, Err("not found".to_string())),
        Err(PinError::Io("not found".to_string()))
    );
}

#[test]
fn expected_hex_is_lower_case() {
    let mut entry = sample_entry(b"hello world", vec![]);
    assert_eq!(
        entry.expected_hex(),
        "b94d27b9934d3e08a52e52d7da7dabfac484efe37a5380ee9088f7ace2efcde9"
    );
    entry.expected_sha256 = [0xAF; 32];
    assert_eq!(entry.expected_hex(), "af".repeat(32));
}

#[test]
fn digest_reads_back() {
    let entry = sample_entry(b"hello world", vec![]);
    let hex = entry.expected_hex();
    assert_eq!(parse_digest(&hex), Ok(entry.expected_sha256));
    assert_eq!(parse_digest(&format!("0x{hex}")), Ok(entry.expected_sha256));
    assert_eq!(parse_digest(&format!("0x0x{hex}")), Ok(entry.expected_sha256));
    assert_eq!(parse_digest(&hex.to_uppercase()), Ok(entry.expected_sha256));
}

#[test]
fn bad_digests_are_refused() {
    assert_eq!(parse_digest("abc"), Err(DigestError::OddLength));
    assert_eq!(parse_digest("abcd"), Err(DigestError::InvalidStringLength));
    assert_eq!(parse_digest(""), Err(DigestError::InvalidStringLength));
    assert_eq!(parse_digest("0x"), Err(DigestError::InvalidStringLength));
    let mut text = "00".repeat(32);
    text.replace_range(5..6, "g");
    text.replace_range(9..10, "z");
    assert_eq!(
        parse_digest(&text),
        Err(DigestError::InvalidHexCharacter { c: 'g', index: 5 })
    );
    // One character of two bytes fills the place of two digits.
    let text = format!("{}\u{e4}", "00".repeat(31));
    assert_eq!(
        parse_digest(&text),
        Err(DigestError::InvalidHexCharacter { c: '\u{c3}', index: 62 })
    );
}

#[test]
fn request_makes_an_entry() {
    let hex = "01".repeat(32);
    let entry = ModelEntry::from_request(
        "id".to_string(),
        &format!("0x{hex}"),
        vec!["https://a/".to_string()],
        None,
    )
    .unwrap();
    assert_eq!(entry.model_id, "id");
    assert_eq!(entry.expected_sha256, [1; 32]);
    assert_eq!(entry.mirrors, vec!["https://a/".to_string()]);
    assert_eq!(entry.size_bytes, 0);
    let entry = ModelEntry::from_request("id".to_string(), &hex, vec![], Some(7)).unwrap();
    assert_eq!(entry.size_bytes, 7);
    match ModelEntry::from_request("id".to_string(), "abc", vec![], None) {
        Err(e) => assert_eq!(e, DigestError::OddLength),
        Ok(_) => panic!("accepted"),
    }
}

#[test]
fn messages_say_what_went_wrong() {
    let cases = [
        (PinError::Io("x".to_string()), "io: x"),
        (PinError::Http("x".to_string()), "http: x"),
        (
            PinError::HashMismatch { expected: "aa".to_string(), actual: "bb".to_string() },
            "hash mismatch: expected aa, got bb",
        ),
        (
            PinError::NoMirrorAvailable { model_id: "0x1".to_string() },
            "no mirror could serve 0x1",
        ),
        (PinError::UnsupportedScheme("ftp".to_string()), "unsupported scheme: ftp"),
        (PinError::ForbiddenMirrorUrl("why".to_string()), "forbidden mirror url: why"),
        (PinError::InvalidModelId("..".to_string()), "invalid model_id: .."),
        (
            PinError::DownloadTooLarge { limit: 0, actual: u64::MAX },
            "download too large: limit 0 bytes, got at least 18446744073709551615 bytes",
        ),
    ];
    for (error, message) in cases {
        assert_eq!(error.message(), message);
    }
}
