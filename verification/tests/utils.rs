use webhook_rs::utils::valid_webhook_path;

#[test]
fn test_valid_webhook_path() {
    assert_eq!(valid_webhook_path(""), false);
    assert_eq!(valid_webhook_path("/"), false);
    assert_eq!(valid_webhook_path("//"), false);
    assert_eq!(valid_webhook_path("/^_^"), false);
    assert_eq!(valid_webhook_path("/_foo"), false);
    assert_eq!(valid_webhook_path("/-foo"), false);
    assert_eq!(valid_webhook_path("/foo?"), false);
    assert_eq!(valid_webhook_path("/foo"), true);
    assert_eq!(valid_webhook_path("/foo-bar"), true);
    assert_eq!(valid_webhook_path("/foo_bar"), true);
}
