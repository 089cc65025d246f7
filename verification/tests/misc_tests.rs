use gemserv::lifecycle::{
    accept_step, signal_action, step, AcceptAction, ConnEvent, ConnState, ShutdownSignal,
    SignalAction, SignalKind,
};
use gemserv::mime::get_mime;
use gemserv::paths;
use gemserv::proxy::{proxy_segment_plan, rewrite_upstream, split_host_port, SegmentPlan};
use gemserv::request::GemUrl;
use gemserv::status::Status;
use gemserv::text;

fn px_url(path: &str) -> GemUrl {
    GemUrl {
        scheme: "gemini".to_string(),
        host: Some("a.example".to_string()),
        port: None,
        path: path.to_string(),
        query: None,
    }
}

#[test]
fn status_codes_and_default_metas() {
    assert_eq!(Status::Input.code(), 10);
    assert_eq!(Status::Success.code(), 20);
    assert_eq!(Status::RedirectTemporary.code(), 30);
    assert_eq!(Status::RedirectPermanent.code(), 31);
    assert_eq!(Status::CGIError.code(), 42);
    assert_eq!(Status::ProxyError.code(), 43);
    assert_eq!(Status::NotFound.code(), 51);
    assert_eq!(Status::ProxyRequestRefused.code(), 53);
    assert_eq!(Status::BadRequest.code(), 59);
    assert!(Status::Success.is_success());
    assert!(!Status::NotFound.is_success());
    assert_eq!(Status::NotFound.default_meta(), "Not Found");
    let head = gemserv::status::response_head(Status::NotFound, &Status::NotFound.default_meta());
    assert_eq!(head, b"51 Not Found\r\n".to_vec());
}

#[test]
fn host_port_splitting() {
    let (h, p) = split_host_port("up.example:1965");
    assert_eq!(h, "up.example");
    assert_eq!(p, Some(1965));
    let (h2, p2) = split_host_port("up.example");
    assert_eq!(h2, "up.example");
    assert_eq!(p2, None);
    let (h3, p3) = split_host_port("up.example:notaport");
    assert_eq!(h3, "up.example");
    assert_eq!(p3, None);
    let (_, p4) = split_host_port("up.example:70000");
    assert_eq!(p4, None);
}

#[test]
fn passthrough_rewrites_only_host_and_port() {
    let u = px_url("/docs?q");
    let u2 = rewrite_upstream(&u, "up.example".to_string(), Some(1966));
    assert_eq!(
        gemserv::proxy::passthrough_request(&u2),
        b"gemini://up.example:1966/docs?q\r\n".to_vec()
    );
}

#[test]
fn segment_proxy_needs_two_parts() {
    assert!(matches!(
        proxy_segment_plan(&px_url("/wiki")),
        SegmentPlan::Refuse(Status::NotFound)
    ));
    assert!(matches!(
        proxy_segment_plan(&px_url("/wiki/")),
        SegmentPlan::Refuse(Status::NotFound)
    ));
    match proxy_segment_plan(&px_url("/wiki/page/sub")) {
        SegmentPlan::Forward(line) => assert_eq!(line, "page/sub"),
        _ => panic!("expected forwarding"),
    }
}

#[test]
fn media_types_from_extensions() {
    assert_eq!(get_mime(true, "/srv/a/docs"), "text/gemini");
    assert_eq!(get_mime(false, "/srv/a/x.gmi"), "text/gemini");
    assert_eq!(get_mime(false, "/srv/a/x.png"), "image/png");
    assert_eq!(get_mime(false, "/srv/a/noext"), "text/plain");
    assert_eq!(get_mime(false, "/srv/a/x.zzunknownzz"), "text/plain");
}

#[test]
fn path_helpers() {
    assert_eq!(paths::path_join("/srv/a", "docs/x"), "/srv/a/docs/x");
    assert_eq!(paths::path_join("/srv/a/", "docs"), "/srv/a/docs");
    assert_eq!(paths::path_join("/srv/a", "/etc/shadow"), "/etc/shadow");
    assert_eq!(paths::parent_of("/srv/a/docs/x"), "/srv/a/docs");
    assert_eq!(paths::parent_of("/srv"), "/");
    assert_eq!(paths::parent_of("/"), "/");
    assert_eq!(paths::parent_of("name"), "");
    assert_eq!(paths::last_component("/srv/a/x.txt"), "x.txt");
    assert!(paths::path_starts_with("/srv/a/cgi/run", "/srv/a/cgi"));
    assert!(paths::path_starts_with("/srv/a//cgi", "/srv/a/cgi/"));
    assert!(!paths::path_starts_with("/srv/a/cgiX", "/srv/a/cgi"));
    assert!(!paths::path_starts_with("srv/a", "/srv/a"));
}

#[test]
fn extensions() {
    let e = |p: &str| paths::extension_of(p);
    assert_eq!(e("/a/b.txt").as_deref(), Some("txt"));
    assert_eq!(e("/a/b.tar.gz").as_deref(), Some("gz"));
    assert_eq!(e("/a/noext"), None);
    assert_eq!(e("/a/.hidden"), None);
    assert_eq!(e("/a/trailing.").as_deref(), Some(""));
}

#[test]
fn number_formatting_and_parsing() {
    assert_eq!(text::dec_string(0), "0");
    assert_eq!(text::dec_string(1965), "1965");
    assert_eq!(text::dec_string(18446744073709551615), "18446744073709551615");
    assert_eq!(text::parse_u16("0"), Some(0));
    assert_eq!(text::parse_u16("65535"), Some(65535));
    assert_eq!(text::parse_u16("65536"), None);
    assert_eq!(text::parse_u16("+19"), Some(19));
    assert_eq!(text::parse_u16(""), None);
    assert_eq!(text::parse_u16("1x"), None);
}

#[test]
fn lifecycle_happy_path() {
    let mut s = ConnState::Accepted;
    for e in [
        ConnEvent::HandshakeDone,
        ConnEvent::HostFound,
        ConnEvent::LineRead,
        ConnEvent::Validated,
        ConnEvent::DispatchDone,
        ConnEvent::WriteDone,
        ConnEvent::ShutdownDone,
    ] {
        s = step(s, e);
    }
    assert_eq!(s, ConnState::Closed);
}

#[test]
fn lifecycle_drops_only_before_identity() {
    assert_eq!(step(ConnState::Accepted, ConnEvent::HandshakeFailed), ConnState::Dropped);
    assert_eq!(step(ConnState::HandshakeComplete, ConnEvent::HostMissing), ConnState::Dropped);
    assert_eq!(step(ConnState::HostMatched, ConnEvent::ReadFailed), ConnState::ResponseSent);
    assert_eq!(step(ConnState::RequestRead, ConnEvent::Refused), ConnState::ResponseSent);
    assert_eq!(step(ConnState::Dispatched, ConnEvent::WriteFailed), ConnState::Closed);
    assert_eq!(step(ConnState::Closed, ConnEvent::LineRead), ConnState::Closed);
}

#[test]
fn signals_and_shutdown_latest_value() {
    assert_eq!(signal_action(SignalKind::Interrupt), SignalAction::ShutdownExit);
    assert_eq!(signal_action(SignalKind::Terminate), SignalAction::ShutdownExit);
    assert_eq!(signal_action(SignalKind::Hangup), SignalAction::Reload);
    let mut sig = ShutdownSignal::new();
    let seen = sig.version();
    assert!(!sig.changed(seen));
    sig.notify();
    sig.notify();
    assert!(sig.changed(seen));
    let seen2 = sig.version();
    assert!(!sig.changed(seen2));
    assert_eq!(accept_step(true), AcceptAction::ExitLoop);
    assert_eq!(accept_step(false), AcceptAction::HandleConnection);
}

#[test]
fn tls_policy_is_relaxed_on_purpose() {
    let up = gemserv::tls::GeminiServerAuth;
    assert!(up.verify_server_cert());
    let cl = gemserv::tls::GeminiClientAuth;
    assert!(cl.offer_client_auth());
    assert!(!cl.client_auth_mandatory());
    assert!(cl.verify_client_cert());
}
