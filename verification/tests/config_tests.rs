use gemserv::config::{parse_log_level, Config, LogLevel, Server, StrMap};

fn plain_host(name: &str) -> Server {
    Server {
        hostname: name.to_string(),
        dir: "/srv/x".to_string(),
        key: "/etc/key.pem".to_string(),
        cert: "/etc/cert.pem".to_string(),
        index: None,
        lang: None,
        cgi: None,
        cgipath: None,
        cgienv: None,
        usrdir: None,
        proxy: None,
        proxy_all: None,
        redirect: None,
        scgi: None,
    }
}

fn base_config() -> Config {
    Config {
        port: None,
        host: None,
        interface: Some(vec!["0.0.0.0:1965".to_string()]),
        log: None,
        server: vec![plain_host("a.example"), plain_host("b.example")],
    }
}

#[test]
fn interface_alone_is_accepted() {
    assert!(base_config().validate().is_ok());
}

#[test]
fn host_and_port_together_are_accepted() {
    let mut c = base_config();
    c.interface = None;
    c.host = Some("0.0.0.0".to_string());
    c.port = Some(1965);
    assert!(c.validate().is_ok());
}

#[test]
fn interface_with_host_is_rejected() {
    let mut c = base_config();
    c.host = Some("0.0.0.0".to_string());
    assert!(c.validate().is_err());
}

#[test]
fn nothing_at_all_is_rejected() {
    let mut c = base_config();
    c.interface = None;
    assert!(c.validate().is_err());
}

#[test]
fn host_without_port_is_rejected() {
    let mut c = base_config();
    c.interface = None;
    c.host = Some("0.0.0.0".to_string());
    assert!(c.validate().is_err());
}

#[test]
fn registry_lookup_is_exact_match() {
    let reg = base_config().to_map();
    assert!(reg.lookup("a.example").is_some());
    assert!(reg.lookup("b.example").is_some());
    assert_eq!(reg.lookup("a.example").unwrap().server.hostname, "a.example");
    assert!(reg.lookup("c.example").is_none());
    assert!(reg.lookup("A.EXAMPLE").is_none());
}

#[test]
fn duplicate_hostname_later_entry_wins() {
    let mut c = base_config();
    let mut dup = plain_host("a.example");
    dup.dir = "/srv/second".to_string();
    c.server.push(dup);
    let reg = c.to_map();
    assert_eq!(reg.lookup("a.example").unwrap().server.dir, "/srv/second");
}

#[test]
fn str_map_insert_and_get() {
    let mut m = StrMap::new();
    assert!(m.get("k").is_none());
    m.insert("k".to_string(), "v1".to_string());
    assert_eq!(m.get("k").map(|s| s.as_str()), Some("v1"));
    m.insert("k".to_string(), "v2".to_string());
    assert_eq!(m.get("k").map(|s| s.as_str()), Some("v2"));
    assert_eq!(m.len(), 1);
    m.insert("l".to_string(), "w".to_string());
    assert_eq!(m.len(), 2);
}

#[test]
fn log_levels_parse() {
    assert_eq!(parse_log_level(&None).unwrap(), LogLevel::InfoLevel);
    assert_eq!(parse_log_level(&Some("error".to_string())).unwrap(), LogLevel::ErrorLevel);
    assert_eq!(parse_log_level(&Some("warn".to_string())).unwrap(), LogLevel::WarnLevel);
    assert_eq!(parse_log_level(&Some("info".to_string())).unwrap(), LogLevel::InfoLevel);
    let e = parse_log_level(&Some("debug".to_string()));
    assert!(e.is_err());
    assert_eq!(e.unwrap_err().message(), "Incorrect log level in config file.");
}
