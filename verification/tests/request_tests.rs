use gemserv::request::{validate_request, RequestOutcome};
use gemserv::status::Status;

fn accept_of(r: RequestOutcome) -> (gemserv::request::GemUrl, bool) {
    match r {
        RequestOutcome::Accept(u, pm) => (u, pm),
        RequestOutcome::Reject(s) => panic!("rejected with {:?}", s),
    }
}

fn reject_of(r: RequestOutcome) -> Status {
    match r {
        RequestOutcome::Reject(s) => s,
        RequestOutcome::Accept(u, _) => panic!("accepted {:?}", u),
    }
}

#[test]
fn plain_request_is_accepted() {
    let raw = b"gemini://a.example/\r\n".to_vec();
    let (u, pm) = accept_of(validate_request(raw, "a.example", 1965));
    assert_eq!(u.scheme, "gemini");
    assert_eq!(u.host.as_deref(), Some("a.example"));
    assert_eq!(u.path, "/");
    assert!(!pm);
}

#[test]
fn wrong_host_is_refused() {
    let raw = b"gemini://wrong.example/\r\n".to_vec();
    let s = reject_of(validate_request(raw, "a.example", 1965));
    assert_eq!(s, Status::ProxyRequestRefused);
}

#[test]
fn wrong_scheme_is_refused() {
    let raw = b"https://a.example/\r\n".to_vec();
    let s = reject_of(validate_request(raw, "a.example", 1965));
    assert_eq!(s, Status::ProxyRequestRefused);
}

#[test]
fn dotdot_is_bad_request() {
    let raw = b"gemini://a.example/a/../b\r\n".to_vec();
    let s = reject_of(validate_request(raw, "a.example", 1965));
    assert_eq!(s, Status::BadRequest);
}

#[test]
fn dotdot_beats_unparsable_url() {
    let raw = b"..\r\n".to_vec();
    let s = reject_of(validate_request(raw, "a.example", 1965));
    assert_eq!(s, Status::BadRequest);
}

#[test]
fn invalid_utf8_is_bad_request() {
    let raw = vec![0xffu8, 0xfe, 0x0d, 0x0a];
    let s = reject_of(validate_request(raw, "a.example", 1965));
    assert_eq!(s, Status::BadRequest);
}

#[test]
fn unparsable_line_is_bad_request() {
    let raw = b"not a url\r\n".to_vec();
    let s = reject_of(validate_request(raw, "a.example", 1965));
    assert_eq!(s, Status::BadRequest);
}

#[test]
fn bare_scheme_relative_line_is_completed() {
    let raw = b"//a.example/docs\r\n".to_vec();
    let (u, _) = accept_of(validate_request(raw, "a.example", 1965));
    assert_eq!(u.scheme, "gemini");
    assert_eq!(u.path, "/docs");
}

#[test]
fn uppercase_host_matches_lowercased() {
    // accepted only because the host is lowercased before the comparison;
    // the URL itself keeps the case it was written with
    let raw = b"gemini://A.EXAMPLE/\r\n".to_vec();
    let (u, _) = accept_of(validate_request(raw, "a.example", 1965));
    assert_eq!(u.host.as_deref(), Some("A.EXAMPLE"));
}

#[test]
fn port_mismatch_is_flagged_but_accepted() {
    let raw = b"gemini://a.example:1966/x\r\n".to_vec();
    let (u, pm) = accept_of(validate_request(raw, "a.example", 1965));
    assert!(pm);
    assert_eq!(u.port, Some(1966));
}

#[test]
fn matching_port_is_not_flagged() {
    let raw = b"gemini://a.example:1965/x\r\n".to_vec();
    let (_, pm) = accept_of(validate_request(raw, "a.example", 1965));
    assert!(!pm);
}

#[test]
fn query_is_kept() {
    let raw = b"gemini://a.example/cgi/run?x=1\r\n".to_vec();
    let (u, _) = accept_of(validate_request(raw, "a.example", 1965));
    assert_eq!(u.query.as_deref(), Some("x=1"));
}

#[test]
fn url_string_round_trips_parts() {
    let raw = b"gemini://a.example:1966/docs?q\r\n".to_vec();
    let (u, _) = accept_of(validate_request(raw, "a.example", 1966));
    assert_eq!(
        gemserv::request::url_string(&u),
        "gemini://a.example:1966/docs?q"
    );
}
