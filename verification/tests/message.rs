use uuid::Uuid;
use webhook_rs::message::{read_buffer_header, StatusLine, TunnelMessage, MSG_EOF, WEBHOOK_REQ_ID};

#[test]
fn message_test_read_buffer_header() {
    let data = format!("{}\r\n{}\r\n", "GET / HTTP/1.1", "User-Agent: Insomia");
    let buffer = data.as_bytes();

    let res = read_buffer_header(buffer);
    assert!(res.is_some());

    let header = res.unwrap();
    assert_eq!(header.data.len(), 37);
    assert!(header.body_start.is_none());
}

#[test]
fn message_test_read_buffer_header_with_body() {
    let data = format!(
        "{}\r\n{}\r\n\r\n{}",
        "POST /auth HTTP/1.1", "User-Agent: Disturbia", "username=rihanna"
    );
    let buffer = data.as_bytes();

    let res = read_buffer_header(buffer);
    assert!(res.is_some());

    let header = res.unwrap();
    assert_eq!(header.data.len(), 42);
    assert!(header.body_start.is_some());

    let body_start = header.body_start.unwrap();
    assert_eq!(body_start, 46);
}

#[test]
fn test_read_buffer_header() {
    let data = format!("{}\r\n{}\r\n", "GET / HTTP/1.1", "User-Agent: Insomia");
    let buffer = data.as_bytes();

    let res = read_buffer_header(buffer);
    assert!(res.is_some());

    let header = res.unwrap();
    assert_eq!(header.data.len(), 37);
    assert!(header.body_start.is_none());
}

#[test]
fn test_read_buffer_header_with_body() {
    let data = format!(
        "{}\r\n{}\r\n\r\n{}",
        "POST /auth HTTP/1.1", "User-Agent: Disturbia", "username=rihanna"
    );
    let buffer = data.as_bytes();

    let res = read_buffer_header(buffer);
    assert!(res.is_some());

    let header = res.unwrap();
    assert_eq!(header.data.len(), 42);
    assert!(header.body_start.is_some());

    let body_start = header.body_start.unwrap();
    assert_eq!(body_start, 46);
}

#[test]
fn test_read_request_with_body() {
    let id = Uuid::now_v7();
    let id_header = format!("{}: {}", WEBHOOK_REQ_ID, id.to_string());
    let buffer = format!(
        "{}\r\n{}\r\n{}\r\n{}\r\n{}\r\n{}",
        "POST /webhook HTTP/1.1",
        "Content-Type: application/json",
        "Content-Length: 13",
        id_header.as_str(),
        "",
        "{\"foo\":\"bar\"}",
    );

    let buffer_bytes = buffer.as_bytes();
    let res = TunnelMessage::from_buffer(buffer_bytes);
    assert!(res.is_ok());

    let req = res.expect("TunnelMessage must be created");

    match &req.status_line {
        StatusLine::Request(line) => {
            assert_eq!(line.method.as_str(), "POST");
            assert_eq!(line.path.as_str(), "/webhook");
            assert_eq!(line.version.as_str(), "HTTP/1.1");
        }
        _ => panic!("Invalid status line"),
    }

    assert_eq!(req.headers.len(), 3);

    let mut headers = req.headers.iter();
    let ctype = headers.next().expect("Content type header must be present");
    assert_eq!(ctype.0.as_str(), "content-type");
    assert_eq!(ctype.1.as_str(), "application/json");

    let clength = headers
        .next()
        .expect("Content length header must be present");
    assert_eq!(clength.0.as_str(), "content-length");
    assert_eq!(clength.1.as_str(), "13");

    let req_id = headers
        .next()
        .expect("Webhook Request ID header must be present");
    assert_eq!(req_id.0.as_str(), WEBHOOK_REQ_ID);
    assert_eq!(req_id.1.as_str(), id.to_string());

    assert_eq!(req.initial_body.len(), 13);
}

#[test]
fn test_read_response_with_body() {
    let id = Uuid::now_v7();
    let id_header = format!("{}: {}", WEBHOOK_REQ_ID, id.to_string());

    let buffer = format!(
        "{}\r\n{}\r\n{}\r\n{}\r\n{}\r\n{}",
        "HTTP/1.1 200 OK",
        "Content-Type: application/json",
        "Content-Length: 13",
        id_header.as_str(),
        "",
        "{\"foo\":\"bar\"}",
    );

    let buffer_bytes = buffer.as_bytes();
    let res = TunnelMessage::from_buffer(buffer_bytes);
    assert!(res.is_ok());

    let res = res.expect("TunnelMessage must be created");

    match &res.status_line {
        StatusLine::Response(line) => {
            assert_eq!(line.version.as_str(), "HTTP/1.1");
            assert_eq!(line.status_code, 200);
            assert_eq!(line.message.as_deref(), Some("OK"));
        }
        _ => panic!("Invalid status line"),
    }

    assert_eq!(res.headers.len(), 3);

    let mut headers = res.headers.iter();
    let ctype = headers.next().expect("Content type header must be present");
    assert_eq!(ctype.0.as_str(), "content-type");
    assert_eq!(ctype.1.as_str(), "application/json");

    let clength = headers
        .next()
        .expect("Content length header must be present");
    assert_eq!(clength.0.as_str(), "content-length");
    assert_eq!(clength.1.as_str(), "13");

    let req_id = headers
        .next()
        .expect("Webhook Request ID header must be present");
    assert_eq!(req_id.0.as_str(), WEBHOOK_REQ_ID);
    assert_eq!(req_id.1.as_str(), id.to_string());

    assert_eq!(res.initial_body.len(), 13);
}

#[test]
fn test_message_with_eof() {
    let mut data = "FOO BAR BAZ\r\n".as_bytes().to_vec();
    data.extend_from_slice(&MSG_EOF);

    let buffer = data.as_slice();
    assert!(buffer.ends_with(&MSG_EOF));
}

#[test]
fn test_multiple_complete_messages() {
    let eof = String::from_utf8_lossy(&MSG_EOF).to_string();

    let id1 = Uuid::now_v7();
    let id1_header = format!("{}: {}", WEBHOOK_REQ_ID, id1.to_string());
    let body1 = format!("{}{}", "{\"foo\":\"bar\"}", eof);

    let buffer1 = format!(
        "{}\r\n{}\r\n{}\r\n{}\r\n{}\r\n{}",
        "HTTP/1.1 200 OK",
        "Content-Type: application/json",
        "Content-Length: 13",
        id1_header.as_str(),
        "",
        body1.as_str()
    );

    let id2 = Uuid::now_v7();
    let id2_header = format!("{}: {}", WEBHOOK_REQ_ID, id2.to_string());
    let body2 = format!("{}{}", "{\"foo\":\"bar\"}", eof);

    let buffer2 = format!(
        "{}\r\n{}\r\n{}\r\n{}\r\n{}\r\n{}",
        "HTTP/1.1 200 OK",
        "Content-Type: application/json",
        "Content-Length: 13",
        id2_header.as_str(),
        "",
        body2.as_str()
    );

    let full_buffer = format!("{}{}", buffer1, buffer2);
    let buffer_bytes = full_buffer.as_bytes();

    // Parse buffer to get 1 or more messages where the last message may be incomplete
    let messages = TunnelMessage::from_large_buffer(buffer_bytes).expect("Messages must be parsed");

    assert_eq!(messages.len(), 2);

    // First message
    let msg1 = &messages[0];
    assert_eq!(msg1.id, id1.as_u128());
    assert!(msg1.complete);

    // Second message
    let msg2 = &messages[1];
    assert_eq!(msg2.id, id2.as_u128());
    assert!(msg2.complete);
}

#[test]
fn test_multiple_messages_last_incomplete() {
    let eof = String::from_utf8_lossy(&MSG_EOF).to_string();

    let id1 = Uuid::now_v7();
    let id1_header = format!("{}: {}", WEBHOOK_REQ_ID, id1.to_string());
    let body1 = format!("{}{}", "{\"foo\":\"bar\"}", eof);

    let buffer1 = format!(
        "{}\r\n{}\r\n{}\r\n{}\r\n{}\r\n{}",
        "HTTP/1.1 200 OK",
        "Content-Type: application/json",
        "Content-Length: 13",
        id1_header.as_str(),
        "",
        body1.as_str()
    );

    let id2 = Uuid::now_v7();
    let id2_header = format!("{}: {}", WEBHOOK_REQ_ID, id2.to_string());
    let body2 = format!("{}", "{\"foo");

    let buffer2 = format!(
        "{}\r\n{}\r\n{}\r\n{}\r\n{}\r\n{}",
        "HTTP/1.1 200 OK",
        "Content-Type: application/json",
        "Content-Length: 13",
        id2_header.as_str(),
        "",
        body2.as_str()
    );

    let full_buffer = format!("{}{}", buffer1, buffer2);
    let buffer_bytes = full_buffer.as_bytes();

    // Parse buffer to get 1 or more messages where the last message may be incomplete
    let messages = TunnelMessage::from_large_buffer(buffer_bytes).expect("Messages must be parsed");

    assert_eq!(messages.len(), 2);

    // First message
    let msg1 = &messages[0];
    assert_eq!(msg1.id, id1.as_u128());
    assert!(msg1.complete);

    // Second message
    let msg2 = &messages[1];
    assert_eq!(msg2.id, id2.as_u128());
    assert!(!msg2.complete);
}
