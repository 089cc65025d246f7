use gemserv::config::{Server, StrMap};
use gemserv::gateway::{
    build_envs, cgi_decision, cgi_enabled, cgi_walk_names, gateway_reply, scgi_record,
    CgiDecision, GatewayReply,
};
use gemserv::request::GemUrl;
use gemserv::routing::{FileKind, FileMeta};

fn gw_host() -> Server {
    Server {
        hostname: "a.example".to_string(),
        dir: "/srv/a".to_string(),
        key: "/etc/key.pem".to_string(),
        cert: "/etc/cert.pem".to_string(),
        index: None,
        lang: None,
        cgi: Some(true),
        cgipath: None,
        cgienv: None,
        usrdir: None,
        proxy: None,
        proxy_all: None,
        redirect: None,
        scgi: None,
    }
}

fn gw_url(path: &str, query: Option<&str>) -> GemUrl {
    GemUrl {
        scheme: "gemini".to_string(),
        host: Some("a.example".to_string()),
        port: None,
        path: path.to_string(),
        query: query.map(|q| q.to_string()),
    }
}

#[test]
fn bad_leading_byte_is_not_forwarded() {
    let out = b"garbage output".to_vec();
    match gateway_reply(out) {
        GatewayReply::Fail => {},
        GatewayReply::Forward(_) => panic!("must not forward"),
    }
}

#[test]
fn empty_output_fails() {
    assert!(matches!(gateway_reply(Vec::new()), GatewayReply::Fail));
}

#[test]
fn zero_leading_digit_fails() {
    assert!(matches!(gateway_reply(b"0 nope\r\n".to_vec()), GatewayReply::Fail));
}

#[test]
fn accepted_output_is_forwarded_verbatim() {
    let out = b"20 text/gemini\r\n# Hi\n".to_vec();
    match gateway_reply(out.clone()) {
        GatewayReply::Forward(f) => assert_eq!(f, out),
        GatewayReply::Fail => panic!("must forward"),
    }
}

#[test]
fn every_status_group_is_accepted() {
    for d in b'1'..=b'6' {
        let mut out = vec![d];
        out.extend_from_slice(b"0 meta\r\n");
        assert!(matches!(gateway_reply(out), GatewayReply::Forward(_)));
    }
    assert!(matches!(gateway_reply(b"7 nope".to_vec()), GatewayReply::Fail));
}

#[test]
fn base_environment_contents() {
    let srv = gw_host();
    let u = gw_url("/cgi/run", Some("x=1"));
    let envs = build_envs("198.51.100.7", 40000, &u, None, &srv);
    let get = |k: &str| envs.get(k).cloned();
    assert_eq!(get("GATEWAY_INTERFACE").as_deref(), Some("CGI/1.1"));
    assert_eq!(get("GEMINI_URL").as_deref(), Some("gemini://a.example/cgi/run?x=1"));
    assert_eq!(get("SERVER_NAME").as_deref(), Some("a.example"));
    assert_eq!(get("SERVER_PROTOCOL").as_deref(), Some("GEMINI"));
    assert_eq!(get("REMOTE_ADDR").as_deref(), Some("198.51.100.7"));
    assert_eq!(get("REMOTE_HOST").as_deref(), Some("198.51.100.7"));
    assert_eq!(get("REMOTE_PORT").as_deref(), Some("40000"));
    assert_eq!(get("SERVER_SOFTWARE").as_deref(), Some("gemserv"));
    assert_eq!(get("QUERY_STRING").as_deref(), Some("x=1"));
    assert_eq!(get("AUTH_TYPE"), None);
    assert_eq!(get("REMOTE_USER"), None);
    assert_eq!(get("TLS_CLIENT_HASH"), None);
}

#[test]
fn no_query_means_no_query_variable() {
    let srv = gw_host();
    let u = gw_url("/cgi/run", None);
    let envs = build_envs("198.51.100.7", 40000, &u, None, &srv);
    assert!(envs.get("QUERY_STRING").is_none());
}

#[test]
fn unparsable_certificate_adds_no_identity() {
    let srv = gw_host();
    let u = gw_url("/cgi/run", None);
    let junk = b"not a certificate".to_vec();
    let envs = build_envs("198.51.100.7", 40000, &u, Some(&junk), &srv);
    assert!(envs.get("AUTH_TYPE").is_none());
    assert!(envs.get("REMOTE_USER").is_none());
    assert!(envs.get("TLS_CLIENT_HASH").is_none());
}

#[test]
fn configured_entries_override_base_ones() {
    let mut srv = gw_host();
    let mut extra = StrMap::new();
    extra.insert("SERVER_SOFTWARE".to_string(), "other".to_string());
    extra.insert("MY_VAR".to_string(), "1".to_string());
    srv.cgienv = Some(extra);
    let u = gw_url("/cgi/run", None);
    let envs = build_envs("198.51.100.7", 40000, &u, None, &srv);
    assert_eq!(envs.get("SERVER_SOFTWARE").map(|s| s.as_str()), Some("other"));
    assert_eq!(envs.get("MY_VAR").map(|s| s.as_str()), Some("1"));
}

#[test]
fn gateway_disabled_never_dispatches() {
    let mut srv = gw_host();
    srv.cgi = None;
    assert!(!cgi_enabled(&srv));
    let meta = FileMeta { kind: FileKind::File, mode: 0o755 };
    assert_eq!(cgi_decision(&srv, "/srv/a/cgi/run", meta), CgiDecision::NotGateway);
}

#[test]
fn executable_file_runs_without_subtree() {
    let srv = gw_host();
    let exec = FileMeta { kind: FileKind::File, mode: 0o755 };
    let plain = FileMeta { kind: FileKind::File, mode: 0o644 };
    assert_eq!(cgi_decision(&srv, "/srv/a/cgi/run", exec), CgiDecision::Run);
    assert_eq!(cgi_decision(&srv, "/srv/a/cgi/run", plain), CgiDecision::NotGateway);
}

#[test]
fn subtree_gates_dispatch() {
    let mut srv = gw_host();
    srv.cgipath = Some("/srv/a/cgi".to_string());
    let exec = FileMeta { kind: FileKind::File, mode: 0o755 };
    let plain = FileMeta { kind: FileKind::File, mode: 0o644 };
    assert_eq!(cgi_decision(&srv, "/srv/a/cgi/run", exec), CgiDecision::Run);
    assert_eq!(cgi_decision(&srv, "/srv/a/cgi/run", plain), CgiDecision::Deny);
    assert_eq!(cgi_decision(&srv, "/srv/a/docs/page", exec), CgiDecision::NotGateway);
    // the subtree test is component-wise, not textual
    assert_eq!(cgi_decision(&srv, "/srv/a/cgiX", exec), CgiDecision::NotGateway);
}

#[test]
fn walk_names_split_script_and_extra_path() {
    let u = gw_url("/cgi/run/a/b", None);
    let (script, info) = cgi_walk_names(&u, 2);
    assert_eq!(script, "/cgi/run");
    assert_eq!(info, "/a/b");
    let (script0, info0) = cgi_walk_names(&u, 0);
    assert_eq!(script0, "/cgi/run/a/b");
    assert_eq!(info0, "");
}

#[test]
fn framed_record_is_length_prefixed() {
    let mut envs = StrMap::new();
    envs.insert("A".to_string(), "b".to_string());
    let u = gw_url("/app", None);
    let record = scgi_record(&envs, &u);
    let payload: Vec<u8> =
        b"CONTENT_LENGTH\x000\x00SCGI\x001\x00REQUEST_METHOD\x00POST\x00REQUEST_URI\x00/app\x00A\x00b\x00"
            .to_vec();
    let mut expected = payload.len().to_string().into_bytes();
    expected.push(b':');
    expected.extend_from_slice(&payload);
    expected.push(b',');
    assert_eq!(record, expected);
}

#[test]
fn fingerprint_of_empty_input() {
    // the SHA-256 digest of no bytes, uppercased
    assert_eq!(
        gemserv::util::fingerhex(b""),
        "SHA256:E3B0C44298FC1C149AFBF4C8996FB92427AE41E4649B934CA495991B7852B855"
    );
}

#[test]
fn url_decode_percent_and_plus() {
    assert_eq!(gemserv::util::url_decode(b"a%20b"), "a b");
    assert_eq!(gemserv::util::url_decode(b"a+b"), "a b");
    assert_eq!(gemserv::util::url_decode(b"plain"), "plain");
}
