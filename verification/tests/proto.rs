use ethertunnel::proto::codec::{
    frame_len, read_frame, read_preamble, write_frame, write_preamble, CodecError,
};
use ethertunnel::proto::debug::describe;
use ethertunnel::proto::frames::{
    ControlFrame, DenyCode, ErrorCode, PeerIp, Resource, Secret, StreamHeader,
};
use ethertunnel::proto::limits::{MAX_CONTROL_FRAME, MAX_STREAM_HEADER, MAX_WS_MESSAGE};
use ethertunnel::proto::transport::{message_len, ReadStep, WsByteStream, WsMessage};
use ethertunnel::proto::wire::{
    decode_frame, decode_header, encode_frame, encode_header, read_control, read_header,
    write_control, write_header,
};
use ethertunnel::PROTOCOL_VERSION;

#[test]
fn secret_redacts_in_debug() {
    let s = Secret::from("etun_supersecret");
    assert_eq!(format!("{s:?}"), "Secret(***)");
    assert_eq!(s.expose(), "etun_supersecret");
}

#[test]
fn hello_debug_does_not_leak_token() {
    let f = ControlFrame::Hello {
        token: Secret::from("etun_leakme"),
        agent_version: "0.1.0".into(),
        proto_min: 1,
        proto_max: 1,
    };
    let dbg = format!("{f:?}");
    assert!(!dbg.contains("leakme"), "token leaked in Debug: {dbg}");
    assert!(dbg.contains("Secret(***)"));
}

#[test]
fn description_is_the_debug_text() {
    let frames = vec![
        ControlFrame::Hello {
            token: Secret::from("etun_leakme"),
            agent_version: "0.1.0 \"x\"".into(),
            proto_min: 1,
            proto_max: 1,
        },
        ControlFrame::Welcome { proto: 1, server_version: "0.1.0".into(), session_id: 42 },
        ControlFrame::Denied { code: DenyCode::AuthFailed, message: "no".into() },
        ControlFrame::Claim {
            hostnames: vec!["a.example.com".into(), "b".into()],
            tcp_ports: vec![20000, 20001],
        },
        ControlFrame::Granted { hostnames: vec![], tcp_ports: vec![20000] },
        ControlFrame::Ping { nonce: 7 },
        ControlFrame::Pong { nonce: u64::MAX },
        ControlFrame::Superseded { resource: Resource::Host("a.example.com".into()) },
        ControlFrame::Superseded { resource: Resource::Port(9) },
        ControlFrame::Goodbye,
        ControlFrame::Shutdown { reason: "deploy".into() },
        ControlFrame::Error { code: ErrorCode::Internal, message: "tab\t".into() },
        ControlFrame::Release { hostnames: vec!["x".into()], tcp_ports: vec![] },
        ControlFrame::Released { hostnames: vec![], tcp_ports: vec![] },
        ControlFrame::ListOwned,
        ControlFrame::Owned { hostnames: vec![], tcp_ports: vec![], max_tunnels: Some(-3) },
        ControlFrame::Owned { hostnames: vec![], tcp_ports: vec![], max_tunnels: None },
    ];
    for f in &frames {
        assert_eq!(describe(f), format!("{f:?}"));
    }
}

#[test]
fn payloads_are_read_back_in_order() {
    // Payloads of several lengths, back to back on one wire.
    let payloads: Vec<Vec<u8>> =
        vec![vec![], vec![1], vec![7; 255], vec![8; 256], vec![9; MAX_CONTROL_FRAME]];
    let mut wire = Vec::new();
    for p in &payloads {
        write_frame(&mut wire, p, MAX_CONTROL_FRAME).unwrap();
    }
    let mut at = 0;
    for p in &payloads {
        let (got, next) = read_frame(&wire, at, MAX_CONTROL_FRAME).unwrap();
        assert_eq!(&got, p);
        at = next;
    }
    assert_eq!(at, wire.len());
}

#[test]
fn control_frames_roundtrip() {
    let frames = vec![
        ControlFrame::Hello {
            token: Secret::from("etun_abc"),
            agent_version: "0.1.0".into(),
            proto_min: 1,
            proto_max: 1,
        },
        ControlFrame::Welcome { proto: 1, server_version: "0.1.0".into(), session_id: 42 },
        ControlFrame::Denied { code: DenyCode::AuthFailed, message: "no".into() },
        ControlFrame::Claim { hostnames: vec!["a.example.com".into()], tcp_ports: vec![20000] },
        ControlFrame::Granted { hostnames: vec!["a.example.com".into()], tcp_ports: vec![20000] },
        ControlFrame::Ping { nonce: 7 },
        ControlFrame::Pong { nonce: 7 },
        ControlFrame::Superseded { resource: Resource::Host("a.example.com".into()) },
        ControlFrame::Goodbye,
        ControlFrame::Shutdown { reason: "deploy".into() },
    ];
    let mut wire = Vec::new();
    for f in &frames {
        write_control(&mut wire, f, MAX_CONTROL_FRAME).unwrap();
    }
    let mut at = 0;
    for expected in &frames {
        let (got, next) = read_control(&wire, at, MAX_CONTROL_FRAME).unwrap();
        assert_eq!(format!("{got:?}"), format!("{expected:?}"));
        at = next;
    }
    assert_eq!(at, wire.len());
    match read_control(&wire, 0, MAX_CONTROL_FRAME).unwrap().0 {
        ControlFrame::Hello { token, .. } => assert_eq!(token.expose(), "etun_abc"),
        other => panic!("expected Hello, got {other:?}"),
    }
}

#[test]
fn v2_frames_roundtrip() {
    for f in [
        ControlFrame::Release {
            hostnames: vec!["a.ethertunnel.com".into(), "b.ethertunnel.com".into()],
            tcp_ports: vec![20001, 20002],
        },
        ControlFrame::Released { hostnames: vec!["a.ethertunnel.com".into()], tcp_ports: vec![] },
        ControlFrame::ListOwned,
        ControlFrame::Owned {
            hostnames: vec!["a.ethertunnel.com".into()],
            tcp_ports: vec![20001],
            max_tunnels: None,
        },
        ControlFrame::Owned { hostnames: vec![], tcp_ports: vec![], max_tunnels: Some(-3) },
    ] {
        let bytes = encode_frame(&f);
        let back = decode_frame(&bytes).unwrap();
        assert_eq!(format!("{f:?}"), format!("{back:?}"));
    }
}

#[test]
fn frames_stand_on_the_wire_as_postcard_lays_them_out() {
    let hello = ControlFrame::Hello {
        token: Secret::from("t\u{f6}k"),
        agent_version: "0.1.0".into(),
        proto_min: 1,
        proto_max: 300,
    };
    let plain = (0u32, "t\u{f6}k", "0.1.0", 1u16, 300u16);
    assert_eq!(encode_frame(&hello), postcard::to_stdvec(&plain).unwrap());
    assert_eq!(&encode_frame(&hello)[..6], &[0, 4, b't', 0xc3, 0xb6, b'k']);
    let welcome = ControlFrame::Welcome {
        proto: 2,
        server_version: "v".into(),
        session_id: u64::MAX,
    };
    let plain = (1u32, 2u16, "v", u64::MAX);
    assert_eq!(encode_frame(&welcome), postcard::to_stdvec(&plain).unwrap());
    let codes = [
        DenyCode::AuthFailed,
        DenyCode::VersionUnsupported,
        DenyCode::NotOwner,
        DenyCode::UnknownHostname,
        DenyCode::PortNotReserved,
        DenyCode::PortUnavailable,
        DenyCode::LimitExceeded,
        DenyCode::ProtocolError,
    ];
    for (i, code) in codes.into_iter().enumerate() {
        let f = ControlFrame::Denied { code, message: "m".into() };
        assert_eq!(encode_frame(&f), vec![2, i as u8, 1, b'm']);
        match decode_frame(&encode_frame(&f)) {
            Ok(ControlFrame::Denied { code: back, .. }) => assert_eq!(back, code),
            other => panic!("expected Denied, got {other:?}"),
        }
    }
    let names = vec!["a".to_string(), "bc".to_string()];
    let ports = vec![1u16, 65535];
    for (n, f) in [
        (3u32, ControlFrame::Claim { hostnames: names.clone(), tcp_ports: ports.clone() }),
        (4, ControlFrame::Granted { hostnames: names.clone(), tcp_ports: ports.clone() }),
        (11, ControlFrame::Release { hostnames: names.clone(), tcp_ports: ports.clone() }),
        (12, ControlFrame::Released { hostnames: names.clone(), tcp_ports: ports.clone() }),
    ] {
        assert_eq!(encode_frame(&f), postcard::to_stdvec(&(n, &names, &ports)).unwrap());
    }
    let owned = ControlFrame::Owned {
        hostnames: names.clone(),
        tcp_ports: ports.clone(),
        max_tunnels: Some(-5),
    };
    let plain = (14u32, &names, &ports, Some(-5i64));
    assert_eq!(encode_frame(&owned), postcard::to_stdvec(&plain).unwrap());
    for (f, bytes) in [
        (ControlFrame::Ping { nonce: 300 }, vec![5, 0xac, 2]),
        (ControlFrame::Pong { nonce: 0 }, vec![6, 0]),
        (ControlFrame::Superseded { resource: Resource::Port(5) }, vec![7, 1, 5]),
        (ControlFrame::Superseded { resource: Resource::Host("h".into()) }, vec![7, 0, 1, b'h']),
        (ControlFrame::Goodbye, vec![8]),
        (ControlFrame::Shutdown { reason: "r".into() }, vec![9, 1, b'r']),
        (
            ControlFrame::Error { code: ErrorCode::Internal, message: "".into() },
            vec![10, 1, 0],
        ),
        (ControlFrame::ListOwned, vec![13]),
    ] {
        assert_eq!(encode_frame(&f), bytes);
        assert_eq!(format!("{:?}", decode_frame(&bytes).unwrap()), format!("{f:?}"));
    }
}

#[test]
fn numbers_and_limits_have_one_encoding() {
    for (nonce, bytes) in [
        (127u64, vec![5, 127]),
        (128, vec![5, 0x80, 1]),
        (16383, vec![5, 0xff, 0x7f]),
        (16384, vec![5, 0x80, 0x80, 1]),
        (u64::MAX, vec![5, 255, 255, 255, 255, 255, 255, 255, 255, 255, 1]),
    ] {
        assert_eq!(encode_frame(&ControlFrame::Ping { nonce }), bytes);
    }
    for (max_tunnels, tail) in [
        (None, vec![0u8]),
        (Some(0), vec![1, 0]),
        (Some(-1), vec![1, 1]),
        (Some(1), vec![1, 2]),
        (Some(100), vec![1, 0xc8, 1]),
        (Some(i64::MAX), vec![1, 254, 255, 255, 255, 255, 255, 255, 255, 255, 1]),
        (Some(i64::MIN), vec![1, 255, 255, 255, 255, 255, 255, 255, 255, 255, 1]),
    ] {
        let f = ControlFrame::Owned {
            hostnames: vec!["\u{f6}".into(), "".into()],
            tcp_ports: vec![300],
            max_tunnels,
        };
        let mut bytes = vec![14, 2, 2, 0xc3, 0xb6, 0, 1, 0xac, 2];
        bytes.extend(tail);
        assert_eq!(encode_frame(&f), bytes);
    }
}

#[test]
fn malformed_payloads_are_refused() {
    let why = |b: &[u8]| decode_frame(b).unwrap_err();
    assert_eq!(why(&[]), "Hit the end of buffer, expected more data");
    assert_eq!(why(&[15]), "Serde Deserialization Error");
    assert_eq!(why(&[2, 8, 0]), "Serde Deserialization Error");
    assert_eq!(why(&[7, 2, 0]), "Serde Deserialization Error");
    assert_eq!(why(&[10, 2, 0]), "Serde Deserialization Error");
    assert_eq!(why(&[9, 1, 0xff]), "Tried to parse invalid utf-8");
    assert_eq!(why(&[9, 5, b'x']), "Hit the end of buffer, expected more data");
    // What follows a value is ignored.
    assert!(matches!(decode_frame(&[8, 1, 2, 3]), Ok(ControlFrame::Goodbye)));
    let mut wire = Vec::new();
    write_frame(&mut wire, &[15], MAX_CONTROL_FRAME).unwrap();
    match read_control(&wire, 0, MAX_CONTROL_FRAME) {
        Err(CodecError::Postcard(e)) => assert_eq!(e, "Serde Deserialization Error"),
        other => panic!("expected an error, got {other:?}"),
    }
}

#[test]
fn stream_header_roundtrips() {
    let h = StreamHeader::Http {
        host: "x.example.com".into(),
        peer_ip: PeerIp::V4([1, 2, 3, 4]),
        peer_port: 51234,
    };
    let mut wire = Vec::new();
    write_header(&mut wire, &h, MAX_STREAM_HEADER).unwrap();
    let (got, next) = read_header(&wire, 0, MAX_STREAM_HEADER).unwrap();
    assert_eq!(got, h);
    assert_eq!(next, wire.len());
    let v6 = [9u8; 16];
    let t = StreamHeader::Tcp { port: 20000, peer_ip: PeerIp::V6(v6), peer_port: 7 };
    let plain = (1u32, 20000u16, 1u32, v6, 7u16);
    assert_eq!(encode_header(&t), postcard::to_stdvec(&plain).unwrap());
    assert_eq!(decode_header(&encode_header(&t)).unwrap(), t);
    let plain = (0u32, "x.example.com", 0u32, [1u8, 2, 3, 4], 51234u16);
    assert_eq!(encode_header(&h), postcard::to_stdvec(&plain).unwrap());
    let why = |b: &[u8]| decode_header(b).unwrap_err();
    assert_eq!(why(&[2]), "Serde Deserialization Error");
    assert_eq!(why(&[1, 5, 2]), "Serde Deserialization Error");
    assert_eq!(why(&[1, 5, 0, 1, 2, 3]), "Hit the end of buffer, expected more data");
}

#[test]
fn oversize_write_is_rejected() {
    let mut wire = vec![1];
    let big = ControlFrame::Shutdown { reason: "x".repeat(100) };
    let err = write_control(&mut wire, &big, 8).unwrap_err();
    assert!(matches!(err, CodecError::TooLarge { .. }));
    let err = write_frame(&mut wire, &[0; 100], 8).unwrap_err();
    assert_eq!(err, CodecError::TooLarge { len: 100, max: 8 });
    assert_eq!(err.message(), "frame of 100 bytes exceeds maximum 8");
    assert_eq!(wire, vec![1]);
    // A limit beyond what the prefix holds is no obstacle.
    write_frame(&mut wire, &[7, 8], usize::MAX).unwrap();
    assert_eq!(wire, vec![1, 2, 0, 0, 0, 7, 8]);
    let (got, next) = read_frame(&wire, 1, usize::MAX).unwrap();
    assert_eq!((got, next), (vec![7, 8], 7));
}

#[test]
fn oversize_read_is_rejected_before_alloc() {
    // A length prefix claiming 10 MiB; the reader must reject on the length
    // alone without trying to read the body.
    let wire = (10u32 * 1024 * 1024).to_le_bytes().to_vec();
    let err = read_frame(&wire, 0, MAX_CONTROL_FRAME).unwrap_err();
    assert!(matches!(err, CodecError::TooLarge { .. }));
    assert!(frame_len(&[1, 0, 1, 0], MAX_CONTROL_FRAME).is_err());
    assert_eq!(frame_len(&[0, 0, 1, 0], MAX_CONTROL_FRAME), Ok(65_536));
}

#[test]
fn preamble_roundtrip_and_bad_magic() {
    let mut wire = Vec::new();
    write_preamble(&mut wire);
    assert_eq!(read_preamble(&wire, 0), Ok((PROTOCOL_VERSION, 6)));
    assert_eq!(wire, b"ETUN\x02\x00".to_vec());

    let err = read_preamble(b"XXXX\x01\x00", 0).unwrap_err();
    assert!(matches!(err, CodecError::BadMagic));
    assert_eq!(err.message(), "bad control-stream magic (not an EtherTunnel peer)");
    assert!(read_preamble(b"ETUN\x01", 0).unwrap_err().is_eof());
}

#[test]
fn truncated_frame_reads_as_eof() {
    // Valid length prefix (5) but only 2 body bytes, then close.
    let mut wire = 5u32.to_le_bytes().to_vec();
    wire.extend_from_slice(&[1, 2]);
    let err = read_frame(&wire, 0, MAX_CONTROL_FRAME).unwrap_err();
    assert!(err.is_eof(), "expected EOF, got {err:?}");
    assert_eq!(err.message(), "io error: early eof");
    assert!(!CodecError::Postcard("x".into()).is_eof());
    assert_eq!(CodecError::Postcard("x".into()).message(), "postcard error: x");
}

fn read_all(s: &mut WsByteStream, room: usize) -> Vec<u8> {
    let mut got = Vec::new();
    while let ReadStep::Data(d) = s.read(room) {
        got.extend(d);
    }
    got
}

#[test]
fn messages_become_one_byte_stream() {
    let mut s = WsByteStream::new();
    assert!(matches!(s.read(10), ReadStep::NeedMessage));
    s.on_message(WsMessage::Binary(b"hello ".to_vec())).unwrap();
    assert_eq!(read_all(&mut s, 4), b"hello ");
    s.on_message(WsMessage::Other).unwrap();
    s.on_message(WsMessage::Binary(vec![])).unwrap();
    assert!(matches!(s.read(10), ReadStep::NeedMessage));
    s.on_message(WsMessage::Binary(b"yamux".to_vec())).unwrap();
    assert_eq!(read_all(&mut s, 64), b"yamux");
    s.on_message(WsMessage::Close).unwrap();
    assert!(matches!(s.read(10), ReadStep::Eof));

    let mut t = WsByteStream::new();
    t.on_end();
    assert!(matches!(t.read(10), ReadStep::Eof));
}

#[test]
fn oversized_message_errors_cleanly() {
    let mut s = WsByteStream::new();
    let e = s.on_message(WsMessage::Binary(vec![0; MAX_WS_MESSAGE + 1])).unwrap_err();
    assert_eq!(e.len, MAX_WS_MESSAGE + 1);
    assert!(s.on_message(WsMessage::Binary(vec![0; MAX_WS_MESSAGE])).is_ok());
    assert_eq!(message_len(5), 5);
    assert_eq!(message_len(2 * MAX_WS_MESSAGE), MAX_WS_MESSAGE);
}
