//! Frames, hellos and the first exchange of a connection.

use ezpn::protocol::{
    after_hello, after_mismatch, build_string, classify_first_byte, client_handshake, client_hello_value, decode_resize,
    encode_incompat, encode_resize, first_frame_kind, frame_len, incompat_for_legacy_client,
    incompat_for_major_mismatch, read_msg, server_hello, server_hello_value, write_msg, AttachMode,
    ClientHello, FirstByteKind, FirstFrame, FirstFrameKind, FrameError, HandshakeOutcome,
    IncompatNotice, ServerHello, C_ATTACH, C_EVENT, C_HELLO, C_RESIZE, MAX_PAYLOAD, PKG_VERSION,
    PROTO_MAJOR, PROTO_MINOR, S_INCOMPAT, S_OUTPUT, S_VERSION,
};
use serde_json::Value;

fn object(fields: Vec<(&str, Value)>) -> Vec<u8> {
    let mut m = serde_json::Map::new();
    for (k, v) in fields {
        m.insert(k.to_string(), v);
    }
    serde_json::to_vec(&Value::Object(m)).unwrap()
}

fn server_json(h: &ServerHello) -> Vec<u8> {
    object(vec![
        ("proto_major", Value::from(h.proto_major)),
        ("proto_minor", Value::from(h.proto_minor)),
        ("build", Value::from(h.build.as_str())),
    ])
}

fn notice_json(n: &IncompatNotice) -> Vec<u8> {
    object(vec![
        ("server_proto", Value::from(n.server_proto.as_str())),
        ("client_proto", Value::from(n.client_proto.as_str())),
        ("message", Value::from(n.message.as_str())),
    ])
}

fn text(v: &Value, key: &str) -> String {
    v[key].as_str().unwrap().to_string()
}

/// What a client reads from the first frame of a server.
fn first_frame(stream: &[u8]) -> FirstFrame {
    let (tag, payload, _) = read_msg(stream, 0).unwrap();
    let parsed = serde_json::from_slice::<Value>(&payload).map_err(|e| e.to_string());
    match first_frame_kind(tag) {
        FirstFrameKind::Version => FirstFrame::Version(parsed.map(|v| ServerHello {
            proto_major: v["proto_major"].as_u64().unwrap() as u16,
            proto_minor: v["proto_minor"].as_u64().unwrap() as u16,
            build: text(&v, "build"),
        })),
        FirstFrameKind::Incompat => FirstFrame::Incompat(parsed.map(|v| IncompatNotice {
            server_proto: text(&v, "server_proto"),
            client_proto: text(&v, "client_proto"),
            message: text(&v, "message"),
        })),
        FirstFrameKind::Other => FirstFrame::Other(tag),
    }
}

#[test]
fn attach_mode_default_is_steal() {
    assert_eq!(AttachMode::default(), AttachMode::Steal);
}

#[test]
fn resize_encode_decode() {
    let encoded = encode_resize(200, 50);
    let (cols, rows) = decode_resize(&encoded).unwrap();
    assert_eq!(cols, 200);
    assert_eq!(rows, 50);
    assert!(decode_resize(&encoded[..3]).is_none());
}

#[test]
fn framed_message_round_trip() {
    let mut buf: Vec<u8> = Vec::new();
    write_msg(&mut buf, C_EVENT, b"hello").unwrap();
    let (tag, payload, end) = read_msg(buf.as_slice(), 0).unwrap();
    assert_eq!(tag, C_EVENT);
    assert_eq!(payload, b"hello");
    assert_eq!(end, buf.len());
}

#[test]
fn frames_follow_one_another() {
    let mut buf: Vec<u8> = Vec::new();
    write_msg(&mut buf, C_EVENT, b"one").unwrap();
    write_msg(&mut buf, C_RESIZE, b"").unwrap();
    let (_, first, at) = read_msg(&buf, 0).unwrap();
    let (tag, second, end) = read_msg(&buf, at).unwrap();
    assert_eq!(first, b"one");
    assert_eq!((tag, second.len(), end), (C_RESIZE, 0, buf.len()));
}

#[test]
fn broken_frames_are_refused() {
    let mut buf: Vec<u8> = Vec::new();
    write_msg(&mut buf, C_EVENT, b"hello").unwrap();
    assert_eq!(read_msg(&buf[..7], 0).unwrap_err(), FrameError::UnexpectedEnd);
    assert_eq!(read_msg(&buf[..2], 0).unwrap_err(), FrameError::UnexpectedEnd);
    let huge = [C_EVENT, 0xff, 0xff, 0xff, 0xff];
    assert!(matches!(read_msg(&huge, 0), Err(FrameError::MessageTooLarge(_))));
    assert!(matches!(frame_len(&huge), Err(FrameError::MessageTooLarge(_))));
    let big = vec![0u8; MAX_PAYLOAD + 1];
    let mut out = Vec::new();
    assert_eq!(
        write_msg(&mut out, C_EVENT, &big).unwrap_err(),
        FrameError::PayloadTooLarge(MAX_PAYLOAD + 1)
    );
    assert!(out.is_empty());
}

#[test]
fn s_version_frame_round_trip() {
    let buf = server_hello(&server_json(&server_hello_value())).unwrap();
    // First byte is the tag.
    assert_eq!(buf[0], S_VERSION);
    let (tag, payload, _) = read_msg(buf.as_slice(), 0).unwrap();
    assert_eq!(tag, S_VERSION);
    let parsed: Value = serde_json::from_slice(&payload).unwrap();
    assert_eq!(parsed["proto_major"], PROTO_MAJOR);
    assert_eq!(parsed["proto_minor"], PROTO_MINOR);
    assert!(text(&parsed, "build").starts_with("ezpn "));
}

#[test]
fn server_hello_tag_is_in_reserved_range() {
    assert!((0x10..=0x1F).contains(&S_VERSION));
    assert!((0x10..=0x1F).contains(&C_HELLO));
    assert!((0x10..=0x1F).contains(&S_INCOMPAT));
}

#[test]
fn major_mismatch_emits_incompat() {
    let client = ClientHello {
        proto_major: PROTO_MAJOR + 1,
        proto_minor: 0,
        client_build: "ezpn 1.0.0".into(),
        supported_features: vec![],
    };
    let notice = incompat_for_major_mismatch(&client, "myproj");
    let frame = encode_incompat(&notice_json(&notice)).unwrap();
    assert_eq!(frame[0], S_INCOMPAT);
    let (tag, payload, _) = read_msg(frame.as_slice(), 0).unwrap();
    assert_eq!(tag, S_INCOMPAT);
    assert_eq!(payload, notice_json(&notice));
    assert_eq!(
        notice.server_proto,
        format!("{}.{}", PROTO_MAJOR, PROTO_MINOR)
    );
    assert_eq!(notice.client_proto, format!("{}.0", PROTO_MAJOR + 1));
    assert!(notice.message.contains("ezpn kill myproj"));
    assert!(notice.message.contains("cannot attach"));
}

#[test]
fn minor_mismatch_is_tolerated_by_client_handshake() {
    // Server pretends to be (PROTO_MAJOR, PROTO_MINOR + 1).
    let server = ServerHello {
        proto_major: PROTO_MAJOR,
        proto_minor: PROTO_MINOR + 1,
        build: format!("ezpn {} (rev future)", PKG_VERSION),
    };
    let mut server_to_client: Vec<u8> = Vec::new();
    write_msg(&mut server_to_client, S_VERSION, &server_json(&server)).unwrap();

    let (outcome, reply) = client_handshake(first_frame(&server_to_client)).unwrap();

    match outcome {
        HandshakeOutcome::Compatible(parsed) => {
            assert_eq!(parsed.proto_minor, PROTO_MINOR + 1);
        }
        HandshakeOutcome::Incompat(n) => {
            panic!("minor mismatch must NOT be reported as incompat: {:?}", n);
        }
    }

    // Client must send its hello in response.
    let hello = reply.unwrap();
    assert_eq!(hello, client_hello_value());
    assert_eq!(hello.proto_major, PROTO_MAJOR);
    assert_eq!(hello.proto_minor, PROTO_MINOR);
    assert!(hello
        .supported_features
        .contains(&"scrollback-v3".to_string()));
}

#[test]
fn major_mismatch_short_circuits_client_handshake() {
    // Server claims major = PROTO_MAJOR + 1 — client must NOT send
    // its hello and must report Incompat.
    let server = ServerHello {
        proto_major: PROTO_MAJOR + 1,
        proto_minor: 0,
        build: "ezpn future".into(),
    };
    let mut server_to_client: Vec<u8> = Vec::new();
    write_msg(&mut server_to_client, S_VERSION, &server_json(&server)).unwrap();

    let (outcome, reply) = client_handshake(first_frame(&server_to_client)).unwrap();

    assert!(reply.is_none(), "client must not send C_HELLO on major mismatch");
    match outcome {
        HandshakeOutcome::Incompat(notice) => {
            assert_eq!(notice.server_proto, format!("{}.0", PROTO_MAJOR + 1));
            assert_eq!(
                notice.client_proto,
                format!("{}.{}", PROTO_MAJOR, PROTO_MINOR)
            );
        }
        HandshakeOutcome::Compatible(_) => panic!("expected Incompat for major mismatch"),
    }
}

#[test]
fn server_pushed_incompat_is_surfaced() {
    let frame = encode_incompat(&notice_json(&incompat_for_legacy_client("demo"))).unwrap();
    let (outcome, _) = client_handshake(first_frame(&frame)).unwrap();
    match outcome {
        HandshakeOutcome::Incompat(notice) => {
            assert!(notice.message.contains("legacy client detected"));
            assert!(notice.message.contains("ezpn kill demo"));
        }
        HandshakeOutcome::Compatible(_) => panic!("expected Incompat from server-pushed S_INCOMPAT"),
    }
}

#[test]
fn legacy_first_byte_classification() {
    assert_eq!(classify_first_byte(C_EVENT), FirstByteKind::Tag);
    assert_eq!(classify_first_byte(C_RESIZE), FirstByteKind::Tag);
    assert_eq!(classify_first_byte(C_ATTACH), FirstByteKind::Tag);
    assert_eq!(classify_first_byte(S_VERSION), FirstByteKind::Tag);
    assert_eq!(classify_first_byte(C_HELLO), FirstByteKind::Tag);

    // A client without a handshake starts with JSON.
    assert_eq!(classify_first_byte(b'{'), FirstByteKind::LegacyJson);
    assert_eq!(classify_first_byte(b'['), FirstByteKind::LegacyJson);

    // Anything else: protocol violation.
    assert_eq!(classify_first_byte(b'A'), FirstByteKind::Unknown);
    assert_eq!(classify_first_byte(0xFF), FirstByteKind::Unknown);
}

#[test]
fn build_string_with_and_without_rev() {
    let with_rev = build_string(Some("abc1234"));
    assert!(with_rev.contains("rev abc1234"));
    assert!(with_rev.contains(PKG_VERSION));
    let no_rev = build_string(None);
    assert!(no_rev.contains("rev unknown"));
    let empty_rev = build_string(Some(""));
    assert!(empty_rev.contains("rev unknown"));
}

#[test]
fn unknown_first_frame_is_an_error() {
    // Server speaks gibberish — client must fail loudly.
    let mut bad: Vec<u8> = Vec::new();
    write_msg(&mut bad, S_OUTPUT, b"raw bytes").unwrap();
    let err = client_handshake(first_frame(&bad)).unwrap_err();
    assert!(err.contains("81"), "got: {err}");
    let mut bad: Vec<u8> = Vec::new();
    write_msg(&mut bad, S_VERSION, b"no json").unwrap();
    assert!(client_handshake(first_frame(&bad)).unwrap_err().contains("S_VERSION"));
    let mut bad: Vec<u8> = Vec::new();
    write_msg(&mut bad, S_INCOMPAT, b"no json").unwrap();
    assert!(client_handshake(first_frame(&bad)).unwrap_err().contains("S_INCOMPAT"));
}

#[test]
fn leading_whitespace_is_the_start_of_json() {
    for b in [b'\t', b'\n', 0x0c, b'\r', b' '] {
        assert_eq!(classify_first_byte(b), FirstByteKind::LegacyJson);
    }
    for b in [0x00, 0x08, 0x0b, 0x0e, 0x1f, S_INCOMPAT] {
        assert_eq!(classify_first_byte(b), FirstByteKind::Tag);
    }
}

fn hello_of(major: u16) -> FirstFrame {
    let server = ServerHello { proto_major: major, proto_minor: 0, build: "ezpn".into() };
    let mut out = Vec::new();
    write_msg(&mut out, S_VERSION, &server_json(&server)).unwrap();
    first_frame(&out)
}

#[test]
fn a_notice_after_the_hello_is_surfaced() {
    let (outcome, reply) = client_handshake(hello_of(PROTO_MAJOR)).unwrap();
    assert!(reply.is_some());
    let HandshakeOutcome::Compatible(server) = outcome else {
        panic!("expected a compatible server");
    };
    let frame = encode_incompat(&notice_json(&incompat_for_legacy_client("demo"))).unwrap();
    match after_hello(server, Some(first_frame(&frame))).unwrap() {
        HandshakeOutcome::Incompat(n) => assert!(n.message.contains("ezpn kill demo")),
        HandshakeOutcome::Compatible(_) => panic!("expected the notice"),
    }
}

#[test]
fn other_answers_to_the_hello_leave_the_server_compatible() {
    let server = || ServerHello { proto_major: PROTO_MAJOR, proto_minor: 3, build: "b".into() };
    for reply in [None, Some(FirstFrame::Other(S_OUTPUT))] {
        match after_hello(server(), reply).unwrap() {
            HandshakeOutcome::Compatible(s) => assert_eq!(s.proto_minor, 3),
            HandshakeOutcome::Incompat(_) => panic!("expected a compatible server"),
        }
    }
    let broken = FirstFrame::Incompat(Err("eof".into()));
    let err = after_hello(server(), Some(broken)).unwrap_err();
    assert_eq!(err, "malformed S_INCOMPAT payload: eof");
}

#[test]
fn the_notice_of_the_server_is_preferred() {
    let own = || match client_handshake(hello_of(PROTO_MAJOR + 1)).unwrap() {
        (HandshakeOutcome::Incompat(n), None) => n,
        _ => panic!("expected a mismatch"),
    };
    let theirs = incompat_for_legacy_client("demo");
    let shown = after_mismatch(own(), Some(FirstFrame::Incompat(Ok(theirs))));
    assert!(shown.message.contains("legacy client detected"));
    assert_eq!(after_mismatch(own(), None).message, own().message);
}
