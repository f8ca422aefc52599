use osbuild_wire::codec::{encode_message, Encoding, Message, JSON};
use osbuild_wire::envelope::{encode_envelope, Envelope, MessageKind};
use osbuild_wire::errors::ErrorKind;
use osbuild_wire::method::{FetchItem, Method, SectionName};
use osbuild_wire::checksum::parse_checksum_key;
use osbuild_wire::reply::{encode_exception, encode_reply, encode_signal, Exception, ItemOutcome,
    Reply, ReplyEntry, Signal};
use osbuild_wire::service::{JobStart, ServiceMachine, ServiceState};

fn sha256_zero_key_text() -> Vec<u8> {
    let mut v = b"sha256:".to_vec();
    for _ in 0..64 {
        v.push(b'0');
    }
    v
}

fn method_wire() -> Vec<u8> {
    let m = Method {
        section: SectionName::Items,
        items: vec![FetchItem {
            key: parse_checksum_key(&sha256_zero_key_text()).expect("valid key"),
            url: b"http://example/test.txt".to_vec(),
            secret: None,
        }],
    };
    encode_message(&Message::Method(m))
}

#[test]
fn service_accepts_one_method_and_runs() {
    let mut svc = ServiceMachine::new();
    assert_eq!(svc.state, ServiceState::Constructed);
    svc.connect();
    assert_eq!(svc.state, ServiceState::AwaitingMethod);
    match svc.accept(&method_wire()) {
        JobStart::Job(m) => {
            assert_eq!(m.items.len(), 1);
            assert_eq!(m.items[0].url, b"http://example/test.txt".to_vec());
        },
        JobStart::Refused(e) => panic!("a well-formed request was refused: {:?}", e),
    }
    assert_eq!(svc.state, ServiceState::Running);
    svc.terminate();
    assert_eq!(svc.state, ServiceState::Terminated);
}

#[test]
fn service_refuses_non_method_with_protocol_error() {
    let mut svc = ServiceMachine::new();
    svc.connect();
    let wire = encode_envelope(&Envelope::new(MessageKind::Signal, b"{}".to_vec()));
    match svc.accept(&wire) {
        JobStart::Job(_) => panic!("a signal must not start a job"),
        JobStart::Refused(e) => assert!(matches!(e.kind, ErrorKind::Protocol)),
    }
    assert_eq!(svc.state, ServiceState::Terminated);
}

#[test]
fn service_refuses_schema_violation_before_any_work() {
    let mut svc = ServiceMachine::new();
    svc.connect();
    let wire = encode_envelope(&Envelope::new(MessageKind::Method, b"{}".to_vec()));
    match svc.accept(&wire) {
        JobStart::Job(_) => panic!("an empty request must not start a job"),
        JobStart::Refused(e) => assert!(matches!(e.kind, ErrorKind::Schema)),
    }
    assert_eq!(svc.state, ServiceState::Terminated);
}

#[test]
fn service_refuses_garbage_with_protocol_error() {
    let mut svc = ServiceMachine::new();
    svc.connect();
    match svc.accept(b"not an envelope") {
        JobStart::Job(_) => panic!("garbage must not start a job"),
        JobStart::Refused(e) => assert!(matches!(e.kind, ErrorKind::Protocol)),
    }
}

#[test]
fn reply_wire_text_is_exact() {
    let r = Reply {
        outcomes: vec![ReplyEntry {
            key: parse_checksum_key(&sha256_zero_key_text()).expect("valid key"),
            outcome: ItemOutcome::Fetched { path: b"/cache/f".to_vec() },
        }],
    };
    let mut expect = b"{\"sha256:".to_vec();
    for _ in 0..64 {
        expect.push(b'0');
    }
    expect.extend(b"\": {\"fetched\": \"/cache/f\"}}".to_vec());
    assert_eq!(encode_reply(&r), expect);
}

#[test]
fn signal_wire_text_is_exact() {
    let sg = Signal {
        key: parse_checksum_key(b"md5:00000000000000000000000000000000").expect("valid key"),
        outcome: ItemOutcome::Failed { kind: ErrorKind::ChecksumMismatch },
    };
    assert_eq!(
        encode_signal(&sg),
        b"{\"md5:00000000000000000000000000000000\": {\"error\": \"checksum-mismatch\"}}"
            .to_vec()
    );
}

#[test]
fn exception_wire_text_is_exact() {
    let e = Exception { kind: ErrorKind::CacheIo, message: b"cache gone".to_vec() };
    assert_eq!(
        encode_exception(&e),
        b"{\"kind\": \"cache-io\", \"message\": \"cache gone\"}".to_vec()
    );
}

#[test]
fn json_encoding_wraps_messages_in_envelopes() {
    let enc = JSON::new();
    let e = Exception { kind: ErrorKind::Transport, message: b"gone".to_vec() };
    let wire = enc.encode_message(&Message::Exception(e));
    assert_eq!(
        wire,
        b"{\"type\": \"Exception\", \"data\": \"{\\\"kind\\\": \\\"transport\\\", \\\"message\\\": \\\"gone\\\"}\"}"
            .to_vec()
    );
    let m = enc.decode_method(b"{\"items\": {}}").expect("empty map is allowed");
    assert_eq!(m.items.len(), 0);
}
