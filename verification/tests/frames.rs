use webhook_rs::message::{
    len_without_eof_marker, read_buffer_header, HttpLine, ResponseLine, StatusLine,
    TunnelMessage, TunnelMessage2, WebhookHeader, MSG_EOF,
};
use webhook_rs::Error;

fn request_line() -> StatusLine {
    StatusLine::Request(HttpLine::new(
        "POST".to_string(),
        "/hook".to_string(),
        "HTTP/1.1".to_string(),
    ))
}

#[test]
fn message_bytes_read_back() {
    let id: u128 = 42;
    let mut m = TunnelMessage::new(id, request_line());
    m.headers.push(("content-type".to_string(), "text/plain; charset=utf-8".to_string()));
    m.initial_body = b"hello \r\n\r\n world".to_vec();
    let bytes = m.into_bytes();
    assert!(bytes.ends_with(&MSG_EOF));
    let back = TunnelMessage::from_buffer(&bytes).unwrap();
    assert_eq!(back.id, id);
    assert!(back.complete);
    assert_eq!(back.headers, m.headers);
    assert_eq!(back.initial_body, m.initial_body);
    match back.status_line {
        StatusLine::Request(l) => assert_eq!(l.path, "/hook"),
        _ => panic!("expected a request"),
    }
}

#[test]
fn message2_bytes_read_back() {
    let id: u128 = 0xfedcba98765432100123456789abcdef;
    let st = StatusLine::Response(ResponseLine::new(
        "HTTP/1.1".to_string(),
        503,
        Some("Unavailable".to_string()),
    ));
    let mut m = TunnelMessage2::new(WebhookHeader::new(id), st);
    m.http_headers.push(("x-a".to_string(), "b".to_string()));
    m.http_body = vec![0, 159, 146, 150];
    let bytes = m.into_bytes();
    assert!(bytes.ends_with(&MSG_EOF));
    let back = TunnelMessage2::from_buffer(&bytes).unwrap();
    assert_eq!(back.header.id, id);
    assert_eq!(back.http_headers, m.http_headers);
    let mut body_and_marker = m.http_body.clone();
    body_and_marker.extend_from_slice(&MSG_EOF);
    assert_eq!(back.http_body, body_and_marker);

    // Without a body the marker ends the header text and reads as no header.
    m.http_body = Vec::new();
    let bytes = m.into_bytes();
    let back = TunnelMessage2::from_buffer(&bytes).unwrap();
    assert_eq!(back.header.id, id);
    assert_eq!(back.http_headers, m.http_headers);
    assert!(back.http_body.is_empty());
    let frame = &bytes[..bytes.len() - MSG_EOF.len()];
    assert_eq!(TunnelMessage2::from_buffer(frame).unwrap().http_headers, m.http_headers);
    match back.http_line {
        StatusLine::Response(l) => {
            assert_eq!(l.status_code, 503);
            assert_eq!(l.message.as_deref(), Some("Unavailable"));
        }
        _ => panic!("expected a response"),
    }
}

#[test]
fn message2_errors() {
    assert!(matches!(TunnelMessage2::from_buffer(b""), Err(Error::TunnelMessageInvalid)));
    assert!(matches!(TunnelMessage2::from_buffer(b"GET / HTTP/1.1\r\n"), Err(Error::TunnelMessageInvalid)));
    let only_header = b"WH/1.0 01234567-89ab-cdef-0011-223344556677\r\n";
    assert!(matches!(TunnelMessage2::from_buffer(only_header), Err(Error::TunnelMessageInvalid)));
    let bad_code = b"WH/1.0 01234567-89ab-cdef-0011-223344556677\r\nHTTP/1.1 abc OK\r\n";
    assert!(TunnelMessage2::checked_from_buffer(bad_code).is_none());
}

#[test]
fn message_without_id_is_refused_by_checked_parse() {
    assert!(TunnelMessage::checked_from_buffer(b"GET / HTTP/1.1\r\nA: b\r\n").is_none());
    assert!(matches!(TunnelMessage::from_buffer(b""), Err(Error::TunnelMessageInvalid)));
}

#[test]
fn auth_messages() {
    let req = TunnelMessage::with_auth_token(7, "tok".to_string());
    assert!(req.is_auth());
    assert!(req.is_request());
    assert!(!req.is_forward());
    assert_eq!(req.webhook_op(), Some("auth"));
    assert_eq!(req.webhook_token(), Some("tok"));
    let ok = TunnelMessage::with_auth_ok(7);
    assert!(ok.is_auth_response());
    assert!(ok.status_line.is_ok());
    assert_eq!(ok.initial_body, b"OK".to_vec());
    let no = TunnelMessage::with_auth_unauthorized(7);
    assert!(no.is_auth_response());
    assert!(!no.status_line.is_ok());
    assert_eq!(no.initial_body, b"Unauthorized".to_vec());
    assert!(!no.is_auth());
}

#[test]
fn accumulate_body_pieces() {
    let mut m = TunnelMessage::new(1, request_line());
    m.complete = false;
    assert_eq!(m.accumulate_body(b"abc"), None);
    assert!(!m.complete);
    let mut tail = b"def".to_vec();
    tail.extend_from_slice(&MSG_EOF);
    tail.extend_from_slice(b"next");
    assert_eq!(m.accumulate_body(&tail), Some(3 + MSG_EOF.len()));
    assert!(m.complete);
    assert_eq!(m.initial_body, b"abcdef".to_vec());
}

#[test]
fn eof_marker_length() {
    let mut data = b"x".to_vec();
    data.extend_from_slice(&MSG_EOF);
    assert_eq!(len_without_eof_marker(&data, data.len()), Some(1));
    assert_eq!(len_without_eof_marker(&MSG_EOF, MSG_EOF.len()), None);
    assert_eq!(len_without_eof_marker(b"abc", 3), None);
}

#[test]
fn invalid_utf8_header_is_decoded_lossily() {
    let h = read_buffer_header(&[0x66, 0xff, 0x67]).unwrap();
    assert_eq!(h.data, "f\u{fffd}g");
    assert!(read_buffer_header(b"").is_none());
}

#[test]
fn header_names_are_lower_cased() {
    let buf = b"GET / HTTP/1.1\r\nX-Webhook-Req-Id: 00000000-0000-0000-0000-000000000005\r\nAB\r\n";
    let m = TunnelMessage::from_buffer(buf).unwrap();
    assert_eq!(m.id, 5);
    assert_eq!(m.headers, vec![("x-webhook-req-id".to_string(), "00000000-0000-0000-0000-000000000005".to_string())]);
    assert!(!m.complete);
}

#[test]
fn split_message_reassembles() {
    let id: u128 = 7;
    let mut m = TunnelMessage::new(id, request_line());
    m.initial_body = b"hello world".to_vec();
    let bytes = m.into_bytes();
    let cut = bytes.len() - MSG_EOF.len() - 5;

    let mut first = TunnelMessage::from_buffer(&bytes[..cut]).unwrap();
    assert!(!first.complete);
    assert_eq!(first.initial_body, b"hello ".to_vec());

    let next = first.accumulate_body(&bytes[cut..]);
    assert_eq!(next, None);
    assert!(first.complete);
    assert_eq!(first.initial_body, b"hello world".to_vec());
    assert_eq!(first.id, id);
}
