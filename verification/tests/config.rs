use webhook_rs::client_config::{Config, ProxyTarget};
use webhook_rs::config::{ClientConfig, ServerConfig};
use webhook_rs::server_config::{read_env, Config as EnvConfig};
use webhook_rs::Error;

fn server(path: &str, secret: &str) -> ServerConfig {
    ServerConfig {
        web_address: "127.0.0.1:9000".to_string(),
        webhook_path: path.to_string(),
        jwt_secret: secret.to_string(),
    }
}

fn invalid_text(r: Result<ServerConfig, Error>) -> String {
    match r {
        Err(Error::ConfigInvalidError(m)) => m,
        _ => panic!("expected a configuration error"),
    }
}

#[test]
fn server_config_checks() {
    assert!(server("/webhook", "s").validate().is_ok());
    assert!(server("*", "s").validate().is_ok());
    assert_eq!(invalid_text(server("", "s").validate()), "Webhook path must not be empty.");
    assert_eq!(invalid_text(server("webhook", "s").validate()), "Webhook path must be in this format: /foo-bar");
    assert_eq!(invalid_text(server("/ok", "").validate()), "JWT secret must no be empty.");
}

#[test]
fn client_config_checks() {
    let c = ClientConfig {
        ws_address: "ws://x".to_string(),
        target_address: "127.0.0.1:4200".to_string(),
        target_secure: false,
        jwt_secret: "s".to_string(),
    };
    assert!(c.validate().is_ok());
    let c = ClientConfig {
        ws_address: "ws://x".to_string(),
        target_address: "".to_string(),
        target_secure: false,
        jwt_secret: "s".to_string(),
    };
    assert!(matches!(c.validate(), Err(Error::ConfigInvalidError(m)) if m == "Target application host must not be empty."));
}

fn target(host: &str, src: &str, dst: &str) -> ProxyTarget {
    ProxyTarget {
        host: host.to_string(),
        secure: false,
        source_path: src.to_string(),
        dest_path: dst.to_string(),
    }
}

#[test]
fn proxy_config_checks() {
    let ok = Config {
        server_address: "ws://s".to_string(),
        targets: vec![target("h", "/a", "/b")],
        jwt_secret: "s".to_string(),
    };
    assert!(ok.validate().is_ok());
    let cases = vec![
        (target("", "/a", "/b"), "Proxy target host is required."),
        (target("h", "", "/b"), "Proxy target source path is required."),
        (target("h", "a", "/b"), "Proxy target source path is invalid."),
        (target("h", "/a", ""), "Proxy target destination path is required."),
        (target("h", "/a", "b"), "Proxy target destination path is invalid."),
    ];
    for (t, msg) in cases {
        let c = Config {
            server_address: "ws://s".to_string(),
            targets: vec![target("h", "/ok", "/ok"), t],
            jwt_secret: "s".to_string(),
        };
        assert!(matches!(c.validate(), Err(Error::ConfigInvalidError(m)) if m == msg));
    }
    let no_addr = Config { server_address: "".to_string(), targets: vec![], jwt_secret: "s".to_string() };
    assert!(matches!(no_addr.validate(), Err(Error::ConfigInvalidError(m)) if m == "Websocket address must not be empty."));
}

#[test]
fn env_config_checks() {
    let c = EnvConfig::build(Some("0.0.0.0:1".to_string()), Some("/wh".to_string()), Some("k".to_string())).unwrap();
    assert_eq!(c.webhook_path, "/wh");
    assert!(matches!(EnvConfig::build(None, Some("/wh".to_string()), Some("k".to_string())),
        Err(Error::ConfigInvalidError(m)) if m == "Missing environment variable: WEBHOOK_SERVER_WEB_ADDRESS."));
    assert!(matches!(EnvConfig::build(Some("a".to_string()), Some("  ".to_string()), Some("k".to_string())),
        Err(Error::ConfigInvalidError(m)) if m == "Environment variable WEBHOOK_SERVER_WEBHOOK_PATH must not be empty."));
    assert!(matches!(EnvConfig::build(Some("a".to_string()), Some("x".to_string()), Some("k".to_string())),
        Err(Error::ConfigInvalidError(m)) if m == "Webhook path must be in this format: /foo-bar"));
    assert_eq!(read_env("K", Some(" v ".to_string())).unwrap(), " v ");
}

#[test]
fn error_texts() {
    assert_eq!(Error::ConfigReadError("x".to_string()).message(), "ConfigReadError: x");
    assert_eq!(Error::TunnelMessageInvalid.message(), "Tunnel message malformed");
    assert_eq!(Error::from_text("boom").message(), "boom");
    assert_eq!(Error::RequestLineInvalid("Path missing".to_string()).message(), "RequestLineInvalid: Path missing");
}
