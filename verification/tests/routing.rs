use webhook_rs::client_config::{Config, ProxyTarget};
use webhook_rs::config::ClientConfig;
use webhook_rs::forward::{find_target, make_url, plan_forward, plan_forward_direct, replace, target_response_message};
use webhook_rs::message::{HttpLine, StatusLine, TunnelMessage2, WebhookHeader};
use webhook_rs::state::{ClientContext, MessageMap, MessageQueue, QueueMessage, ServerContext};
use webhook_rs::config::ServerConfig;
use webhook_rs::token::{auth_claims, created_token, verify_decoded, Claims};
use webhook_rs::tunnel::{client_on_message, server_on_message, ClientStep, WsEvent};
use webhook_rs::web::{carries_body, forward_error, forward_success, is_website_mode, webhook_request};
use webhook_rs::Error;

fn config() -> Config {
    Config {
        server_address: "ws://s".to_string(),
        targets: vec![
            ProxyTarget { host: "api:80".to_string(), secure: false, source_path: "/api".to_string(), dest_path: "/v2".to_string() },
            ProxyTarget { host: "web:443".to_string(), secure: true, source_path: "/".to_string(), dest_path: "/".to_string() },
        ],
        jwt_secret: "s".to_string(),
    }
}

#[test]
fn targets_by_prefix() {
    let c = config();
    assert_eq!(find_target(&c, "/api/users").unwrap().host, "api:80");
    assert_eq!(find_target(&c, "/other").unwrap().host, "web:443");
    let empty = Config { server_address: "x".to_string(), targets: vec![], jwt_secret: "s".to_string() };
    assert!(find_target(&empty, "/api").is_none());
}

#[test]
fn replace_all_occurrences() {
    assert_eq!(replace("/api/x/api", "/api", "/v2"), "/v2/x/v2");
    assert_eq!(replace("aaa", "aa", "b"), "ba");
    assert_eq!(replace("ab", "", "-"), "-a-b-");
    assert_eq!(make_url(true, "h:1", "/p"), "https://h:1/p");
}

#[test]
fn forward_plan() {
    let c = config();
    let st = StatusLine::Request(HttpLine::new("POST".to_string(), "/api/users?q=1".to_string(), "HTTP/1.1".to_string()));
    let mut m = TunnelMessage2::new(WebhookHeader::new(9), st);
    m.http_headers = vec![("host".to_string(), "public".to_string()), ("x-a".to_string(), "b".to_string())];
    m.http_body = b"{}".to_vec();
    let p = plan_forward(&c, &m);
    assert_eq!(p.method, "POST");
    assert_eq!(p.url, "http://api:80/v2/users?q=1");
    assert_eq!(p.headers, vec![("host".to_string(), "api:80".to_string()), ("x-a".to_string(), "b".to_string())]);
    assert_eq!(p.body, Some(b"{}".to_vec()));
    let d = ClientConfig { ws_address: "w".to_string(), target_address: "t:1".to_string(), target_secure: false, jwt_secret: "s".to_string() };
    m.http_body = Vec::new();
    let q = plan_forward_direct(&d, &m);
    assert_eq!(q.url, "http://t:1/api/users?q=1");
    assert!(q.body.is_none());
}

#[test]
fn target_answer_message() {
    let r = target_response_message(3, "HTTP/1.1".to_string(), 404, "Not Found".to_string(), vec![("a".to_string(), "b".to_string())], b"x".to_vec());
    assert_eq!(r.header.id, 3);
    match &r.http_line {
        StatusLine::Response(l) => assert_eq!(l.status_code, 404),
        _ => panic!("expected a response"),
    }
    let w = forward_success(r);
    assert_eq!(w.status, 404);
    assert_eq!(w.body, b"x".to_vec());
}

#[test]
fn web_decisions() {
    assert!(is_website_mode("*"));
    assert!(!is_website_mode("/hook"));
    assert!(carries_body("PATCH"));
    assert!(!carries_body("GET"));
    let m = webhook_request(5, "GET".to_string(), "/hook".to_string(), vec![], b"ignored".to_vec());
    assert!(m.http_body.is_empty());
    let m = webhook_request(5, "PUT".to_string(), "/hook".to_string(), vec![], b"kept".to_vec());
    assert_eq!(m.http_body, b"kept".to_vec());
    assert_eq!(forward_error(None), (503, "Service Unavailable\n".to_string()));
    assert_eq!(forward_error(Some(Error::NoClientError)).1, "Service Unavailable: No connected client\n");
}

#[test]
fn queue_and_map() {
    let mut q = MessageQueue::new();
    q.push(QueueMessage::Ping);
    q.push(QueueMessage::Message(TunnelMessage2::new(WebhookHeader::new(1), StatusLine::Request(HttpLine::new("GET".to_string(), "/".to_string(), "HTTP/1.1".to_string())))));
    assert!(matches!(q.pop(), Some(QueueMessage::Ping)));
    assert!(matches!(q.pop(), Some(QueueMessage::Message(_))));
    assert!(q.pop().is_none());
    let mut map = MessageMap::new();
    map.add(TunnelMessage2::new(WebhookHeader::new(8), StatusLine::Request(HttpLine::new("GET".to_string(), "/".to_string(), "HTTP/1.1".to_string()))));
    assert!(map.take(&7).is_none());
    assert_eq!(map.take(&8).unwrap().header.id, 8);
    assert!(map.take(&8).is_none());
}

#[test]
fn contexts() {
    let cfg = ServerConfig { web_address: "a".to_string(), webhook_path: "/h".to_string(), jwt_secret: "s".to_string() };
    let mut s = ServerContext::new(cfg);
    assert!(!s.is_verified());
    s.verify();
    assert!(s.is_verified());
    let bytes = TunnelMessage2::new(WebhookHeader::new(11), StatusLine::Request(HttpLine::new("GET".to_string(), "/".to_string(), "HTTP/1.1".to_string()))).into_bytes();
    assert!(matches!(server_on_message(&mut s, WsEvent::Binary(bytes)), Some(Ok(()))));
    assert_eq!(s.get_response(&11).unwrap().header.id, 11);
    assert!(matches!(server_on_message(&mut s, WsEvent::Binary(b"junk".to_vec())), Some(Err(Error::TunnelMessageInvalid))));
    s.reset();
    assert!(!s.is_verified());
    let ccfg = ClientConfig { ws_address: "w".to_string(), target_address: "t".to_string(), target_secure: false, jwt_secret: "s".to_string() };
    let mut c = ClientContext::new(ccfg);
    assert!(matches!(client_on_message(&mut c, WsEvent::Close), Some(ClientStep::Stop)));
    assert!(matches!(client_on_message(&mut c, WsEvent::Pong), Some(ClientStep::Continue)));
    assert!(c.get_request().is_none());
}

#[test]
fn token_claims() {
    let c = auth_claims(1000);
    assert_eq!(c.sub, "AUTH");
    assert_eq!(c.exp, 1060);
    assert!(verify_decoded(Some(c)).is_ok());
    assert!(matches!(verify_decoded(Some(Claims { sub: "".to_string(), exp: 1 })), Err(Error::InvalidAuthToken)));
    assert!(matches!(verify_decoded(None), Err(Error::InvalidAuthToken)));
    assert_eq!(created_token(Some("t".to_string())).unwrap(), "t");
    assert!(matches!(created_token(None), Err(Error::AnyError(m)) if m == "Error creating JWT token"));
}

#[test]
fn written_message_crosses_unchanged() {
    let st = StatusLine::Response(webhook_rs::message::ResponseLine::new(
        "HTTP/1.1".to_string(),
        201,
        Some("Created".to_string()),
    ));
    let mut m = TunnelMessage2::new(WebhookHeader::new(77), st);
    m.http_headers.push(("x-clé".to_string(), "ça va".to_string()));
    m.http_body = b"{\"ok\":true}".to_vec();
    let bytes = m.into_bytes();

    let cfg = ServerConfig { web_address: "a".to_string(), webhook_path: "/h".to_string(), jwt_secret: "s".to_string() };
    let mut s = ServerContext::new(cfg);
    assert!(matches!(server_on_message(&mut s, WsEvent::Binary(bytes.clone())), Some(Ok(()))));
    let filed = s.get_response(&77).unwrap();
    assert_eq!(filed.http_headers, m.http_headers);
    assert_eq!(filed.http_body, m.http_body);

    let ccfg = ClientConfig { ws_address: "w".to_string(), target_address: "t".to_string(), target_secure: false, jwt_secret: "s".to_string() };
    let mut c = ClientContext::new(ccfg);
    assert!(matches!(client_on_message(&mut c, WsEvent::Binary(bytes)), Some(ClientStep::Continue)));
    match c.get_request() {
        Some(QueueMessage::Message(q)) => {
            assert_eq!(q.header.id, 77);
            assert_eq!(q.http_body, m.http_body);
        }
        _ => panic!("expected a queued request"),
    }
}

#[test]
fn tunnel_flag_follows_last_call() {
    let mut t = webhook_rs::state::TunnelState::new();
    assert!(!t.is_verified());
    t.verify();
    t.reset();
    t.verify();
    assert!(t.is_verified());
    t.reset();
    assert!(!t.is_verified());
}

#[test]
fn queue_after_clear_gives_later_pushes() {
    let req = |id: u128| QueueMessage::Message(TunnelMessage2::new(WebhookHeader::new(id), StatusLine::Request(HttpLine::new("GET".to_string(), "/".to_string(), "HTTP/1.1".to_string()))));
    let mut q = MessageQueue::new();
    q.push(req(1));
    q.clear();
    q.push(req(2));
    q.push(QueueMessage::Ping);
    q.push(req(3));
    assert!(matches!(q.pop(), Some(QueueMessage::Message(m)) if m.header.id == 2));
    assert!(matches!(q.pop(), Some(QueueMessage::Ping)));
    assert!(matches!(q.pop(), Some(QueueMessage::Message(m)) if m.header.id == 3));
    assert!(q.pop().is_none());
}
