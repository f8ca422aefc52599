use osbuild_wire::envelope::{decode_envelope, encode_envelope, Envelope, MessageKind};
use osbuild_wire::errors::ErrorKind;

fn round_trip(kind: MessageKind, data: &[u8]) {
    let e = Envelope::new(kind, data.to_vec());
    let wire = encode_envelope(&e);
    let back = decode_envelope(&wire).expect("an encoded envelope must decode");
    assert_eq!(back.kind, kind);
    assert_eq!(back.data, data.to_vec());
}

#[test]
fn envelope_round_trip_all_kinds() {
    round_trip(MessageKind::Method, b"{\"items\": {}}");
    round_trip(MessageKind::Reply, b"{}");
    round_trip(MessageKind::Signal, b"{\"a\": 1}");
    round_trip(MessageKind::Exception, b"oops");
}

#[test]
fn envelope_round_trip_escaped_payload() {
    round_trip(MessageKind::Method, b"say \"hi\" \\ there");
    round_trip(MessageKind::Reply, b"\x00\x01\x1f mixed \"\\ text");
    round_trip(MessageKind::Signal, b"");
}

#[test]
fn envelope_wire_text_is_exact() {
    let e = Envelope::new(MessageKind::Reply, b"ok".to_vec());
    let wire = encode_envelope(&e);
    assert_eq!(wire, b"{\"type\": \"Reply\", \"data\": \"ok\"}".to_vec());
}

#[test]
fn envelope_escapes_quotes_and_controls() {
    let e = Envelope::new(MessageKind::Signal, b"a\"b\\c\nd".to_vec());
    let wire = encode_envelope(&e);
    assert_eq!(
        wire,
        b"{\"type\": \"Signal\", \"data\": \"a\\\"b\\\\c\\u000ad\"}".to_vec()
    );
}

#[test]
fn envelope_unknown_kind_is_protocol_error() {
    let r = decode_envelope(b"{\"type\": \"Bogus\", \"data\": \"x\"}");
    assert!(matches!(r, Err(ErrorKind::Protocol)));
}

#[test]
fn envelope_malformed_is_protocol_error() {
    assert!(decode_envelope(b"").is_err());
    assert!(decode_envelope(b"{\"type\": \"Method\"").is_err());
    assert!(decode_envelope(b"{\"type\": \"Method\", \"data\": \"x\"} ").is_err());
    assert!(decode_envelope(b"[1, 2]").is_err());
}
