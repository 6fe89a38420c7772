use webhook_rs::message::{
    parse_status_line, HttpLine, ResponseLine, StatusLine, WebhookHeader,
};
use webhook_rs::parser::{RequestLine, TunnelRequest, TunnelResponse};
use webhook_rs::Error;

#[test]
fn http_line_text_and_parse() {
    let l = HttpLine::new("GET".to_string(), "/a/b".to_string(), "HTTP/1.1".to_string());
    assert_eq!(l.to_string(), "GET /a/b HTTP/1.1\r\n");
    assert_eq!(l.into_bytes(), b"GET /a/b HTTP/1.1\r\n".to_vec());
    let p = HttpLine::parse("  PUT   /x\tHTTP/1.0 extra ").unwrap();
    assert_eq!(p.method, "PUT");
    assert_eq!(p.path, "/x");
    assert_eq!(p.version, "HTTP/1.0");
}

#[test]
fn http_line_missing_parts() {
    assert!(matches!(HttpLine::parse("   "), Err(Error::RequestLineInvalid(m)) if m == "Method missing"));
    assert!(matches!(HttpLine::parse("GET"), Err(Error::RequestLineInvalid(m)) if m == "Path missing"));
    assert!(matches!(HttpLine::parse("GET /"), Err(Error::RequestLineInvalid(m)) if m == "Version missing"));
    assert!(matches!(RequestLine::parse("GET /"), Err(Error::RequestLineInvalid(m)) if m == "Version missing"));
}

#[test]
fn response_line_text_and_parse() {
    let l = ResponseLine::new("HTTP/1.1".to_string(), 200, Some("OK".to_string()));
    assert_eq!(l.to_string(), "HTTP/1.1 200 OK\r\n");
    let n = ResponseLine::new("HTTP/1.0".to_string(), 7, None);
    assert_eq!(n.to_string(), "HTTP/1.0 7 \r\n");
    let p = ResponseLine::parse("HTTP/1.1 404 Not Found").unwrap();
    assert_eq!(p.version, "HTTP/1.1");
    assert_eq!(p.status_code, 404);
    assert_eq!(p.message.as_deref(), Some("Not"));
    let q = ResponseLine::parse("HTTP/1.1 +65535").unwrap();
    assert_eq!(q.status_code, 65535);
    assert!(q.message.is_none());
    assert!(matches!(ResponseLine::parse(""), Err(Error::ResponseLineInvalid(m)) if m == "Version missing"));
    assert!(matches!(ResponseLine::parse("HTTP/1.1"), Err(Error::ResponseLineInvalid(m)) if m == "Status code missing"));
}

#[test]
fn status_line_kinds() {
    match parse_status_line("DELETE /item/3 HTTP/1.1").unwrap() {
        StatusLine::Request(l) => assert_eq!(l.method, "DELETE"),
        _ => panic!("expected a request"),
    }
    let r = parse_status_line("HTTP/1.0 200 OK").unwrap();
    assert!(r.is_response());
    assert!(r.is_ok());
    assert!(!r.is_request());
    assert_eq!(r.into_bytes(), b"HTTP/1.0 200 OK\r\n".to_vec());
    let nf = parse_status_line("HTTP/1.1 404 Nope").unwrap();
    assert!(!nf.is_ok());
    assert!(matches!(parse_status_line("OPTIONS / HTTP/1.1"), Err(Error::TunnelStatusLineInvalid)));
    assert!(matches!(parse_status_line(""), Err(Error::TunnelStatusLineInvalid)));
    assert!(matches!(parse_status_line("POST"), Err(Error::RequestLineInvalid(_))));
}

#[test]
fn webhook_header_text_and_parse() {
    let id: u128 = 0x0123456789abcdef0011223344556677;
    let h = WebhookHeader::new(id);
    assert_eq!(h.to_string(), "WH/1.0 01234567-89ab-cdef-0011-223344556677\r\n");
    assert_eq!(h.into_bytes(), b"WH/1.0 01234567-89ab-cdef-0011-223344556677\r\n".to_vec());
    let p = WebhookHeader::parse_str("WH/1.0 01234567-89ab-cdef-0011-223344556677").unwrap();
    assert_eq!(p.id, id);
    assert_eq!(p.version, "WH/1.0");
    assert!(matches!(WebhookHeader::parse_str("WH/2.0 01234567-89ab-cdef-0011-223344556677"), Err(Error::TunnelMessageInvalid)));
    assert!(matches!(WebhookHeader::parse_str("WH/1.0 not-a-uuid"), Err(Error::TunnelMessageInvalid)));
    assert!(matches!(WebhookHeader::parse_str("WH/1.0"), Err(Error::TunnelMessageInvalid)));
}

#[test]
fn tunnel_request_header_errors() {
    let bad = b"GET / HTTP/1.1\r\nno-colon-here\r\n\r\n";
    assert!(matches!(TunnelRequest::from_buffer(bad), Err(Error::RequestHeaderInvalid)));
    let two = b"GET / HTTP/1.1\r\nA: b: c\r\n";
    assert!(matches!(TunnelRequest::from_buffer(two), Err(Error::RequestHeaderInvalid)));
    assert!(matches!(TunnelRequest::from_buffer(b"no line end"), Err(Error::RequestLineInvalid(m)) if m == "Request line missing"));
}

#[test]
fn tunnel_response_parts() {
    let buf = b"HTTP/1.1 201 Created\r\nX-A: 1\r\n\r\nbody";
    let r = TunnelResponse::from_buffer(buf).unwrap();
    assert_eq!(r.response_line.status_code, 201);
    assert_eq!(r.headers, vec![("X-A".to_string(), "1".to_string())]);
    assert_eq!(r.initial_body, b"body".to_vec());
    let bad = b"HTTP/1.1 2xx Created\r\n";
    assert!(TunnelResponse::checked_from_buffer(bad).is_none());
    let hdr = b"HTTP/1.1 200 OK\r\nbad\r\n";
    assert!(matches!(TunnelResponse::from_buffer(hdr), Err(Error::ResponseHeaderInvalid)));
}
