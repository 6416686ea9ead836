use biblio::config::{
    certificate_path, library_path, private_key_path, service_ip_and_port, use_https,
    users_file_path, with, Config,
};

fn sample_config() -> Config {
    Config {
        library_path: "/data/libraries".to_string(),
        service_ip_and_port: "127.0.0.1:8080".to_string(),
        users_file_path: "/data/users.ids".to_string(),
        use_https: false,
        certificate_path: "/data/cert.pem".to_string(),
        private_key_path: "/data/key.pem".to_string(),
    }
}

#[test]
fn test_config_load() {}

#[test]
fn test_resolve_path_absolute() {
    assert_eq!(Config::resolve_path("/base", "/abs/path"), "/abs/path");
}

#[test]
fn test_resolve_path_relative() {
    assert_eq!(Config::resolve_path("/base", "rel/path"), "/base/rel/path");
    assert_eq!(Config::resolve_path("/base/", "rel"), "/base/rel");
}

#[test]
fn test_resolve_paths_in_place() {
    let mut cfg = sample_config();
    cfg.library_path = "libraries".to_string();
    cfg.users_file_path = "/etc/users.ids".to_string();
    cfg.resolve_paths("/config");
    assert_eq!(cfg.library_path, "/config/libraries");
    assert_eq!(cfg.users_file_path, "/etc/users.ids");
    assert_eq!(cfg.service_ip_and_port, "127.0.0.1:8080");
}

#[test]
fn test_accessors() {
    let cfg = sample_config();
    assert_eq!(library_path(&cfg), "/data/libraries");
    assert_eq!(service_ip_and_port(&cfg), "127.0.0.1:8080");
    assert_eq!(users_file_path(&cfg), "/data/users.ids");
    assert!(!use_https(&cfg));
    assert_eq!(certificate_path(&cfg), "/data/cert.pem");
    assert_eq!(private_key_path(&cfg), "/data/key.pem");
}

#[test]
fn test_with_reader() {
    let cfg = sample_config();
    let port = with(&cfg, |c| c.service_ip_and_port.clone());
    assert_eq!(port, "127.0.0.1:8080");
}
