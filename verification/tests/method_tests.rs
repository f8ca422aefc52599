use osbuild_wire::checksum::{parse_checksum_key, Algorithm};
use osbuild_wire::method::{decode_method, encode_method, FetchItem, Method, MethodError,
    SectionName};

fn zeros_key(n: usize) -> Vec<u8> {
    let mut v = Vec::new();
    for _ in 0..n {
        v.push(b'0');
    }
    v
}

fn key_text(tag: &str, digest_len: usize) -> Vec<u8> {
    let mut v = tag.as_bytes().to_vec();
    v.push(b':');
    v.extend(zeros_key(digest_len));
    v
}

#[test]
fn checksum_keys_accepted_per_algorithm() {
    for (tag, len, alg) in [
        ("md5", 32, Algorithm::Md5),
        ("sha1", 40, Algorithm::Sha1),
        ("sha256", 64, Algorithm::Sha256),
        ("sha384", 96, Algorithm::Sha384),
        ("sha512", 128, Algorithm::Sha512),
    ] {
        let k = parse_checksum_key(&key_text(tag, len)).expect("valid key");
        assert_eq!(k.algorithm, alg);
        assert_eq!(k.digest.len(), len);
    }
}

#[test]
fn checksum_keys_rejected_when_malformed() {
    // Wrong digest length for the algorithm.
    assert!(parse_checksum_key(&key_text("sha256", 63)).is_none());
    assert!(parse_checksum_key(&key_text("sha256", 65)).is_none());
    assert!(parse_checksum_key(&key_text("md5", 40)).is_none());
    // Unknown algorithm tag.
    assert!(parse_checksum_key(&key_text("sha224", 56)).is_none());
    // Uppercase or non-hex digest characters.
    let mut upper = key_text("sha1", 39);
    upper.push(b'A');
    assert!(parse_checksum_key(&upper).is_none());
    let mut bad = key_text("sha1", 39);
    bad.push(b'g');
    assert!(parse_checksum_key(&bad).is_none());
    // No colon, or nothing after the tag.
    assert!(parse_checksum_key(b"sha256").is_none());
    assert!(parse_checksum_key(b"sha25600").is_none());
    assert!(parse_checksum_key(b"").is_none());
}

fn item(keytext: &[u8], url: &[u8], secret: Option<&[u8]>) -> FetchItem {
    FetchItem {
        key: parse_checksum_key(keytext).expect("valid key"),
        url: url.to_vec(),
        secret: secret.map(|s| s.to_vec()),
    }
}

#[test]
fn method_round_trip_bare_url() {
    let m = Method {
        section: SectionName::Items,
        items: vec![item(&key_text("sha256", 64), b"http://example/test.txt", None)],
    };
    let wire = encode_method(&m);
    let back = decode_method(&wire).expect("canonical text must decode");
    assert_eq!(back.section, SectionName::Items);
    assert_eq!(back.items.len(), 1);
    assert_eq!(back.items[0].key.algorithm, Algorithm::Sha256);
    assert_eq!(back.items[0].url, b"http://example/test.txt".to_vec());
    assert!(back.items[0].secret.is_none());
}

#[test]
fn method_round_trip_secret_and_many_items() {
    let m = Method {
        section: SectionName::Urls,
        items: vec![
            item(&key_text("md5", 32), b"https://a/b", Some(b"org.osbuild.mtls")),
            item(&key_text("sha1", 40), b"https://c/d?x=\"1\"", None),
            item(&key_text("sha512", 128), b"https://e/f", Some(b"other")),
        ],
    };
    let wire = encode_method(&m);
    let back = decode_method(&wire).expect("canonical text must decode");
    assert_eq!(back.section, SectionName::Urls);
    assert_eq!(back.items.len(), 3);
    assert_eq!(back.items[0].secret, Some(b"org.osbuild.mtls".to_vec()));
    assert_eq!(back.items[1].url, b"https://c/d?x=\"1\"".to_vec());
    assert_eq!(back.items[1].secret, None);
    assert_eq!(back.items[2].secret, Some(b"other".to_vec()));
}

#[test]
fn method_round_trip_empty_map() {
    let m = Method { section: SectionName::Items, items: vec![] };
    let wire = encode_method(&m);
    assert_eq!(wire, b"{\"items\": {}}".to_vec());
    let back = decode_method(&wire).expect("canonical text must decode");
    assert_eq!(back.items.len(), 0);
}

#[test]
fn method_text_is_exact() {
    let m = Method {
        section: SectionName::Items,
        items: vec![item(&key_text("md5", 32), b"http://x/y", None)],
    };
    let mut expect = b"{\"items\": {\"md5:".to_vec();
    expect.extend(zeros_key(32));
    expect.extend(b"\": \"http://x/y\"}}".to_vec());
    assert_eq!(encode_method(&m), expect);
}

#[test]
fn method_missing_both_sections_is_schema_error() {
    assert!(matches!(decode_method(b"{}"), Err(MethodError::MissingSection)));
}

#[test]
fn method_both_sections_is_schema_error() {
    let mut wire = b"{\"items\": {\"md5:".to_vec();
    wire.extend(zeros_key(32));
    wire.extend(b"\": \"http://x/y\"}, \"urls\": {}}".to_vec());
    assert!(matches!(decode_method(&wire), Err(MethodError::ExtraMember)));
}

#[test]
fn method_bad_key_is_schema_error() {
    let wire = b"{\"items\": {\"sha256:zz\": \"http://x/y\"}}".to_vec();
    assert!(matches!(decode_method(&wire), Err(MethodError::BadKey)));
}

#[test]
fn method_duplicate_key_is_schema_error() {
    let mut wire = b"{\"items\": {\"md5:".to_vec();
    wire.extend(zeros_key(32));
    wire.extend(b"\": \"http://a\", \"md5:".to_vec());
    wire.extend(zeros_key(32));
    wire.extend(b"\": \"http://b\"}}".to_vec());
    assert!(matches!(decode_method(&wire), Err(MethodError::DuplicateKey)));
}

#[test]
fn method_malformed_texts_are_refused() {
    assert!(matches!(decode_method(b""), Err(MethodError::Malformed)));
    assert!(matches!(decode_method(b"[]"), Err(MethodError::Malformed)));
    assert!(matches!(decode_method(b"{\"other\": {}}"), Err(MethodError::Malformed)));
    let mut wire = b"{\"items\": {\"md5:".to_vec();
    wire.extend(zeros_key(32));
    wire.extend(b"\": \"http://a\"}".to_vec());
    assert!(matches!(decode_method(&wire), Err(MethodError::Malformed)));
}
