use gemserv::config::{Server, StrMap};
use gemserv::request::{validate_request, GemUrl, RequestOutcome};
use gemserv::routing::{
    fs_path, index_path, route_early, route_fs, serve_decision, world_readable, any_exec,
    EarlyRoute, FileKind, FileMeta, FsStep, ServeStep,
};
use gemserv::status::Status;

fn host(dir: &str) -> Server {
    Server {
        hostname: "a.example".to_string(),
        dir: dir.to_string(),
        key: "/etc/key.pem".to_string(),
        cert: "/etc/cert.pem".to_string(),
        index: None,
        lang: None,
        cgi: None,
        cgipath: None,
        cgienv: None,
        usrdir: None,
        proxy: None,
        proxy_all: None,
        redirect: None,
        scgi: None,
    }
}

fn url(path: &str) -> GemUrl {
    GemUrl {
        scheme: "gemini".to_string(),
        host: Some("a.example".to_string()),
        port: None,
        path: path.to_string(),
        query: None,
    }
}

fn accepted(raw: &[u8]) -> GemUrl {
    match validate_request(raw.to_vec(), "a.example", 1965) {
        RequestOutcome::Accept(u, _) => u,
        RequestOutcome::Reject(s) => panic!("rejected with {:?}", s),
    }
}

const DIR: FileMeta = FileMeta { kind: FileKind::Dir, mode: 0o755 };
const MISSING: FileMeta = FileMeta { kind: FileKind::Missing, mode: 0 };

#[test]
fn redirect_map_hit_is_temporary_redirect() {
    let mut srv = host("/srv/a");
    let mut re = StrMap::new();
    re.insert("/old".to_string(), "/new".to_string());
    srv.redirect = Some(re);
    let u = accepted(b"gemini://a.example/old\r\n");
    match route_early(&srv, &u) {
        EarlyRoute::Redirect(t) => {
            assert_eq!(t, "/new");
            let head = gemserv::status::response_head(Status::RedirectTemporary, &t);
            assert_eq!(head, b"30 /new\r\n".to_vec());
        },
        _ => panic!("expected a redirect"),
    }
}

#[test]
fn redirect_key_ignores_trailing_slash() {
    let mut srv = host("/srv/a");
    let mut re = StrMap::new();
    re.insert("/old".to_string(), "/new".to_string());
    srv.redirect = Some(re);
    match route_early(&srv, &url("/old/")) {
        EarlyRoute::Redirect(t) => assert_eq!(t, "/new"),
        _ => panic!("expected a redirect"),
    }
}

#[test]
fn precedence_redirect_before_proxy_all() {
    let mut srv = host("/srv/a");
    let mut re = StrMap::new();
    re.insert("/old".to_string(), "/new".to_string());
    srv.redirect = Some(re);
    srv.proxy_all = Some("up.example:1965".to_string());
    assert!(matches!(route_early(&srv, &url("/old")), EarlyRoute::Redirect(_)));
    assert!(matches!(route_early(&srv, &url("/other")), EarlyRoute::ProxyAll(_)));
}

#[test]
fn proxy_segment_lookup_uses_first_segment() {
    let mut srv = host("/srv/a");
    let mut pr = StrMap::new();
    pr.insert("wiki".to_string(), "up.example:1965".to_string());
    srv.proxy = Some(pr);
    match route_early(&srv, &url("/wiki/page")) {
        EarlyRoute::ProxySegment(t) => assert_eq!(t, "up.example:1965"),
        _ => panic!("expected segment proxying"),
    }
    assert!(matches!(route_early(&srv, &url("/other/page")), EarlyRoute::Fs(_)));
}

#[test]
fn scgi_map_hit_names_backend() {
    let mut srv = host("/srv/a");
    let mut sc = StrMap::new();
    sc.insert("/app".to_string(), "127.0.0.1:4000".to_string());
    srv.scgi = Some(sc);
    match route_early(&srv, &url("/app/")) {
        EarlyRoute::ScgiBackend(t) => assert_eq!(t, "127.0.0.1:4000"),
        _ => panic!("expected the gateway backend"),
    }
}

#[test]
fn fs_path_is_under_document_root() {
    let srv = host("/srv/a");
    match route_early(&srv, &url("/docs/b.txt")) {
        EarlyRoute::Fs(p) => assert_eq!(p, "/srv/a/docs/b.txt"),
        _ => panic!("expected the filesystem"),
    }
}

#[test]
fn fs_path_decodes_percent_escapes() {
    let srv = host("/srv/a");
    assert_eq!(fs_path(&srv, &url("/he%20llo.txt")), "/srv/a/he llo.txt");
}

#[test]
fn fs_path_user_directory() {
    let mut srv = host("/srv/a");
    srv.usrdir = Some(true);
    assert_eq!(fs_path(&srv, &url("/~bob/notes.txt")), "/home/bob/public_gemini/notes.txt");
    assert_eq!(fs_path(&srv, &url("/~bob")), "/home/bob/public_gemini/");
}

#[test]
fn usrdir_disabled_stays_under_root() {
    let srv = host("/srv/a");
    assert_eq!(fs_path(&srv, &url("/~bob/notes.txt")), "/srv/a/~bob/notes.txt");
}

#[test]
fn directory_without_slash_redirects_permanently() {
    let u = accepted(b"gemini://a.example/docs\r\n");
    match route_fs(&u, DIR, MISSING) {
        FsStep::RedirectSlash(m) => {
            assert_eq!(m, "gemini://a.example/docs/");
            let head = gemserv::status::response_head(Status::RedirectPermanent, &m);
            assert_eq!(head, b"31 gemini://a.example/docs/\r\n".to_vec());
        },
        _ => panic!("expected the permanent redirect"),
    }
}

#[test]
fn slash_redirect_never_repeats() {
    let u = accepted(b"gemini://a.example/docs/\r\n");
    assert!(!matches!(route_fs(&u, DIR, MISSING), FsStep::RedirectSlash(_)));
}

#[test]
fn readable_index_is_substituted() {
    let u = url("/docs/");
    let index = FileMeta { kind: FileKind::File, mode: 0o644 };
    assert!(matches!(route_fs(&u, DIR, index), FsStep::UseIndex));
}

#[test]
fn unreadable_index_falls_back_to_listing() {
    let u = url("/docs/");
    let index = FileMeta { kind: FileKind::File, mode: 0o200 };
    assert!(matches!(route_fs(&u, DIR, index), FsStep::Listing));
    assert!(matches!(route_fs(&u, DIR, MISSING), FsStep::Listing));
}

#[test]
fn missing_target_walks_ancestors() {
    let u = url("/cgi/run/extra");
    assert!(matches!(route_fs(&u, MISSING, MISSING), FsStep::Walk));
}

#[test]
fn index_path_uses_configured_name() {
    let mut srv = host("/srv/a");
    assert_eq!(index_path(&srv, "/srv/a/docs/"), "/srv/a/docs/index.gemini");
    srv.index = Some("start.gmi".to_string());
    assert_eq!(index_path(&srv, "/srv/a/docs/"), "/srv/a/docs/start.gmi");
}

#[test]
fn unreadable_file_is_not_found() {
    let srv = host("/srv/a");
    let meta = FileMeta { kind: FileKind::File, mode: 0o640 };
    match serve_decision(&srv, "/srv/a/secret.txt", meta) {
        ServeStep::Refuse(s) => assert_eq!(s, Status::NotFound),
        _ => panic!("expected a refusal"),
    }
}

#[test]
fn executable_file_is_not_found() {
    let srv = host("/srv/a");
    let meta = FileMeta { kind: FileKind::File, mode: 0o755 };
    match serve_decision(&srv, "/srv/a/tool", meta) {
        ServeStep::Refuse(s) => assert_eq!(s, Status::NotFound),
        _ => panic!("expected a refusal"),
    }
}

#[test]
fn owner_only_execute_bit_still_refuses() {
    let srv = host("/srv/a");
    let meta = FileMeta { kind: FileKind::File, mode: 0o744 };
    assert!(matches!(
        serve_decision(&srv, "/srv/a/tool", meta),
        ServeStep::Refuse(Status::NotFound)
    ));
}

#[test]
fn readable_file_is_served_with_its_media_type() {
    let srv = host("/srv/a");
    let meta = FileMeta { kind: FileKind::File, mode: 0o644 };
    match serve_decision(&srv, "/srv/a/index.gemini", meta) {
        ServeStep::ServeFile(m) => {
            assert_eq!(m, "text/gemini");
            let head = gemserv::status::response_head(Status::Success, &m);
            assert_eq!(head, b"20 text/gemini\r\n".to_vec());
        },
        _ => panic!("expected a served file"),
    }
}

#[test]
fn language_tag_is_appended_to_text_gemini() {
    let mut srv = host("/srv/a");
    srv.lang = Some("en".to_string());
    let meta = FileMeta { kind: FileKind::File, mode: 0o644 };
    match serve_decision(&srv, "/srv/a/index.gemini", meta) {
        ServeStep::ServeFile(m) => assert_eq!(m, "text/gemini; lang=en"),
        _ => panic!("expected a served file"),
    }
    match serve_decision(&srv, "/srv/a/a.txt", meta) {
        ServeStep::ServeFile(m) => assert_eq!(m, "text/plain"),
        _ => panic!("expected a served file"),
    }
}

#[test]
fn readable_directory_is_listed_as_text_gemini() {
    let srv = host("/srv/a");
    match serve_decision(&srv, "/srv/a/docs/", DIR) {
        ServeStep::ServeListing(m) => assert_eq!(m, "text/gemini"),
        _ => panic!("expected a listing"),
    }
}

#[test]
fn permission_bit_helpers() {
    assert!(world_readable(0o644));
    assert!(!world_readable(0o640));
    assert!(any_exec(0o100));
    assert!(any_exec(0o001));
    assert!(!any_exec(0o644));
}

#[test]
fn whole_request_for_index_file() {
    // host a.example, document root /srv/a, file /srv/a/index.gemini:
    // the request for the root serves it as text/gemini.
    let srv = host("/srv/a");
    let u = accepted(b"gemini://a.example/\r\n");
    let p = match route_early(&srv, &u) {
        EarlyRoute::Fs(p) => p,
        _ => panic!("expected the filesystem"),
    };
    assert_eq!(p, "/srv/a/");
    let index = FileMeta { kind: FileKind::File, mode: 0o644 };
    assert!(matches!(route_fs(&u, DIR, index), FsStep::UseIndex));
    let ip = index_path(&srv, &p);
    assert_eq!(ip, "/srv/a/index.gemini");
    assert!(matches!(
        gemserv::gateway::cgi_decision(&srv, &ip, index),
        gemserv::gateway::CgiDecision::NotGateway
    ));
    match serve_decision(&srv, &ip, index) {
        ServeStep::ServeFile(m) => {
            let mut wire = gemserv::status::response_head(Status::Success, &m);
            wire.extend_from_slice(b"# Hi");
            assert_eq!(wire, b"20 text/gemini\r\n# Hi".to_vec());
        },
        _ => panic!("expected a served file"),
    }
}
