use dshpet::http::{
    base64_key, clock_key_bytes, read_head, read_response, request_head, ws_accepted, ws_headers, ws_step, Failure,
    Part, Scan, Url, WsError, WsStep, WS_OP_TEXT,
};

#[test]
fn url_parse() {
    let u = Url::parse("http://127.0.0.1:3080/api/x").unwrap();
    assert_eq!((u.host.as_str(), u.port), ("127.0.0.1", 3080));
    assert_eq!(u.path, "/api/x");
    let u = Url::parse("http://localhost/").unwrap();
    assert_eq!((u.host.as_str(), u.port), ("localhost", 80));
    assert!(Url::parse("https://x").is_err());
    assert!(Url::parse("http:///nopath").is_err());
}

#[test]
fn url_shows_its_host_and_port() {
    let u = Url::parse("http://localhost/a/b").unwrap();
    assert_eq!(u.display(), "localhost:80");
}

#[test]
fn http_content_length() {
    let r = match read_response(b"HTTP/1.1 200 OK\r\nContent-Length: 5\r\n\r\nhello", false) {
        Scan::Got(r, _) => r,
        _ => panic!("no response"),
    };
    assert_eq!(r.status, 200);
    assert_eq!(r.body, b"hello");
}

#[test]
fn http_chunked() {
    let bytes =
        b"HTTP/1.1 200 OK\r\nTransfer-Encoding: chunked\r\n\r\n5\r\nhello\r\n6\r\n world\r\n0\r\n\r\n";
    let r = match read_response(bytes, false) {
        Scan::Got(r, n) => {
            assert_eq!(n, bytes.len());
            r
        }
        _ => panic!("no response"),
    };
    assert_eq!(r.body, b"hello world");
    assert_eq!(r.header("transfer-encoding"), Some("chunked"));
}

#[test]
fn a_response_is_read_once_it_is_whole() {
    let bytes = b"HTTP/1.1 200 OK\r\nContent-Length: 5\r\n\r\nhello";
    for n in 0..bytes.len() {
        assert!(matches!(read_response(&bytes[..n], false), Scan::More));
    }
    assert!(matches!(read_response(bytes, false), Scan::Got(_, n) if n == bytes.len()));
}

#[test]
fn a_body_without_a_length_ends_with_the_connection() {
    let bytes = b"HTTP/1.0 200 OK\r\n\r\nall of it";
    assert!(matches!(read_response(bytes, false), Scan::More));
    match read_response(bytes, true) {
        Scan::Got(r, _) => assert_eq!(r.body, b"all of it"),
        _ => panic!("no response"),
    }
}

#[test]
fn responses_that_cannot_be_read() {
    assert!(matches!(read_response(b"nonsense\r\n", false), Scan::Failed(Failure::StatusLine(_))));
    assert!(matches!(
        read_response(b"HTTP/1.1 200 OK\r\nContent-Length: x\r\n\r\n", false),
        Scan::Failed(Failure::ContentLength(_))
    ));
    assert!(matches!(
        read_response(b"HTTP/1.1 200 OK\r\nTransfer-Encoding: chunked\r\n\r\nzz\r\n", false),
        Scan::Failed(Failure::ChunkSize(_))
    ));
    assert!(matches!(
        read_response(b"HTTP/1.1 200 OK\r\nContent-Length: 5\r\n\r\nhel", true),
        Scan::Failed(Failure::Short(Part::Body))
    ));
    assert!(matches!(read_response(b"\xff\xfe\r\n", false), Scan::Failed(Failure::Encoding(Part::Status))));
}

#[test]
fn ws_handshake_and_frame() {
    let key = base64_key(&clock_key_bytes(7));
    let headers = ws_headers(&key);
    let req = request_head("GET", "/api/events.mux", "127.0.0.1", 80, &headers, None);
    assert!(req.contains("Upgrade: websocket"));
    assert!(req.contains("Sec-WebSocket-Key:"));
    let mut buf =
        b"HTTP/1.1 101 Switching Protocols\r\nUpgrade: websocket\r\nConnection: Upgrade\r\nSec-WebSocket-Accept: abc\r\n\r\n"
            .to_vec();
    let from = match read_head(&buf, false) {
        Scan::Got((status, _), n) => {
            assert!(ws_accepted(status).is_ok());
            n
        }
        _ => panic!("no head"),
    };
    buf.drain(..from);
    buf.extend_from_slice(&[0x81, 0x02, b'h', b'i']);
    buf.extend_from_slice(&[0x89, 0x00]);
    buf.extend_from_slice(&[0x88, 0x00]);
    match ws_step(&mut buf) {
        WsStep::Frame(f) => {
            assert_eq!(f.opcode, WS_OP_TEXT);
            assert_eq!(f.payload, b"hi");
        }
        other => panic!("{other:?}"),
    }
    // the ping is answered, then the close arrives
    assert!(matches!(ws_step(&mut buf), WsStep::Reply(_)));
    assert!(matches!(ws_step(&mut buf), WsStep::Failed(WsError::Closed)));
}

#[test]
fn ws_16bit_and_64bit_lengths() {
    let big = vec![b'x'; 300];
    let mut f = vec![0x81, 126];
    f.extend_from_slice(&(300u16).to_be_bytes());
    f.extend_from_slice(&big);
    match ws_step(&mut f) {
        WsStep::Frame(f) => assert_eq!(f.payload.len(), 300),
        other => panic!("{other:?}"),
    }
    assert!(f.is_empty());
    let mut f = vec![0x82, 127];
    f.extend_from_slice(&(70_000u64).to_be_bytes());
    f.extend_from_slice(&vec![b'y'; 70_000]);
    match ws_step(&mut f) {
        WsStep::Frame(f) => assert_eq!(f.payload.len(), 70_000),
        other => panic!("{other:?}"),
    }
}

#[test]
fn a_frame_waits_for_its_last_byte() {
    let whole = [0x81u8, 0x03, b'a', b'b', b'c'];
    for n in 0..whole.len() {
        let mut buf = whole[..n].to_vec();
        assert!(matches!(ws_step(&mut buf), WsStep::More));
        assert_eq!(buf, whole[..n].to_vec());
    }
}

#[test]
fn a_refused_handshake() {
    assert!(ws_accepted(200).is_err());
    assert!(ws_accepted(101).is_ok());
}

#[test]
fn websocket_errors_in_words() {
    assert_eq!(WsError::Timeout.message(), "read timeout");
    assert_eq!(WsError::Io("x".into()).message(), "io: x");
    assert_eq!(WsError::Closed.message(), "connection closed");
    assert_eq!(WsError::Protocol("y".into()).message(), "protocol: y");
}

#[test]
fn base64_key_format() {
    let k = base64_key(&clock_key_bytes(1_700_000_000_123_456_789));
    assert_eq!(k.len(), 24);
    assert!(k.ends_with("=="));
    assert!(k.chars().all(|c| c.is_ascii_alphanumeric() || c == '+' || c == '/' || c == '='));
}

#[test]
fn base64_of_known_bytes() {
    assert_eq!(base64_key(b"Man"), "TWFu");
    assert_eq!(base64_key(b"Ma"), "TWE=");
    assert_eq!(base64_key(b"M"), "TQ==");
}

#[test]
fn a_url_is_read_back_from_what_it_shows() {
    for s in ["http://h", "http://h:8080/a?b=c:d", "http://a:b:+80/x/y", "http://127.0.0.1:065535//"] {
        let u = Url::parse(s).unwrap();
        let v = Url::parse(&format!("http://{}{}", u.display(), u.path)).unwrap();
        assert_eq!((&v.host, v.port, &v.path), (&u.host, u.port, &u.path));
        assert!(!u.host.is_empty() && u.path.starts_with('/'));
    }
    assert_eq!(Url::parse("http://a:b:+80/x/y").unwrap().display(), "a:b:80");
}
