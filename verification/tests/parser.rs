use webhook_rs::parser::{read_buffer_line, TunnelRequest};

#[test]
fn test_read_buffer_line() {
    let buffer = format!(
        "{}\r\n{}\r\n",
        "AUTH /auth WEBHOOK/1.0", "Authorization: token"
    );

    let buffer_bytes = buffer.as_bytes();
    let res = read_buffer_line(buffer_bytes, 0);
    assert!(res.is_some());

    let req = res.expect("BufferLine must be created");
    assert_eq!(req.line.as_str(), "AUTH /auth WEBHOOK/1.0");
    assert_eq!(req.next_start, Some(24));

    let next_start = req.next_start.expect("Next start must be set");
    let auth_res = read_buffer_line(buffer_bytes, next_start);
    assert!(auth_res.is_some());

    let auth = auth_res.expect("BufferLine must be created");
    assert_eq!(auth.line.as_str(), "Authorization: token");
    assert_eq!(auth.next_start, None);
}

#[test]
fn test_read_tunnel_request() {
    let buffer = format!(
        "{}\r\n{}\r\n{}\r\n{}\r\n",
        "AUTH /auth WEBHOOK/1.0",
        "Authorization: token",
        "User-Agent: rust-testing",
        "X-Foo-Bar:baz"
    );

    let buffer_bytes = buffer.as_bytes();
    let res = TunnelRequest::from_buffer(buffer_bytes);
    assert!(res.is_ok());

    let req = res.expect("TunnelRequest must be created");

    assert_eq!(req.request_line.method.as_str(), "AUTH");
    assert_eq!(req.request_line.path.as_str(), "/auth");
    assert_eq!(req.request_line.version.as_str(), "WEBHOOK/1.0");

    assert_eq!(req.headers.len(), 3);

    let mut headers = req.headers.iter();
    let auth = headers
        .next()
        .expect("Authorization header must be present");
    assert_eq!(auth.0.as_str(), "Authorization");
    assert_eq!(auth.1.as_str(), "token");

    let ua = headers.next().expect("User-Agent header must be present");
    assert_eq!(ua.0.as_str(), "User-Agent");
    assert_eq!(ua.1.as_str(), "rust-testing");

    let foo = headers.next().expect("X-Foo-Bar header must be present");
    assert_eq!(foo.0.as_str(), "X-Foo-Bar");
    assert_eq!(foo.1.as_str(), "baz");
}

#[test]
fn test_read_tunnel_request_with_body() {
    let buffer = format!(
        "{}\r\n{}\r\n{}\r\n{}\r\n{}\r\n{}\r\n{}\r\n{}\r\n{}\r\n{}",
        "FORWARD /webhook WEBHOOK/1.0",
        "Authorization: token",
        "User-Agent: rust-testing",
        "X-Foo-Bar:baz",
        "",
        "POST /webhook HTTP/1.1",
        "Content-Type: application/json",
        "Content-Length: 13",
        "",
        "{\"foo\":\"bar\"}",
    );

    let buffer_bytes = buffer.as_bytes();
    let res = TunnelRequest::from_buffer(buffer_bytes);
    assert!(res.is_ok());

    let req = res.expect("TunnelRequest must be created");

    assert_eq!(req.request_line.method.as_str(), "FORWARD");
    assert_eq!(req.request_line.path.as_str(), "/webhook");
    assert_eq!(req.request_line.version.as_str(), "WEBHOOK/1.0");

    assert_eq!(req.headers.len(), 3);

    let mut headers = req.headers.iter();
    let auth = headers
        .next()
        .expect("Authorization header must be present");
    assert_eq!(auth.0.as_str(), "Authorization");
    assert_eq!(auth.1.as_str(), "token");

    let ua = headers.next().expect("User-Agent header must be present");
    assert_eq!(ua.0.as_str(), "User-Agent");
    assert_eq!(ua.1.as_str(), "rust-testing");

    let foo = headers.next().expect("X-Foo-Bar header must be present");
    assert_eq!(foo.0.as_str(), "X-Foo-Bar");
    assert_eq!(foo.1.as_str(), "baz");

    assert_eq!(req.initial_body.len(), 91);
}

#[test]
fn test_read_http_request_with_body() {
    let buffer = format!(
        "{}\r\n{}\r\n{}\r\n{}\r\n{}",
        "POST /webhook HTTP/1.1",
        "Content-Type: application/json",
        "Content-Length: 13",
        "",
        "{\"foo\":\"bar\"}",
    );

    let buffer_bytes = buffer.as_bytes();
    let res = TunnelRequest::from_buffer(buffer_bytes);
    assert!(res.is_ok());

    let req = res.expect("TunnelRequest must be created");

    assert_eq!(req.request_line.method.as_str(), "POST");
    assert_eq!(req.request_line.path.as_str(), "/webhook");
    assert_eq!(req.request_line.version.as_str(), "HTTP/1.1");

    assert_eq!(req.headers.len(), 2);

    let mut headers = req.headers.iter();
    let auth = headers.next().expect("Content type header must be present");
    assert_eq!(auth.0.as_str(), "Content-Type");
    assert_eq!(auth.1.as_str(), "application/json");

    let ua = headers
        .next()
        .expect("Content length header must be present");
    assert_eq!(ua.0.as_str(), "Content-Length");
    assert_eq!(ua.1.as_str(), "13");

    assert_eq!(req.initial_body.len(), 13);
}
