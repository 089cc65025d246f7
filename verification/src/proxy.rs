use vstd::prelude::*;
use vstd::string::*;

use crate::request::{spec_url_chars, GemUrl};
use crate::status::Status;
use crate::text;

verus! {

/// An upstream address split at its first colon: the host, and the part
/// after the colon read as a decimal port when present.
pub fn split_host_port(addr: &str) -> (r: (String, Option<u16>))
    ensures
        ({
            let i = text::spec_find_char(addr@, ':');
            if i < 0 {
                r.0@ == addr@ && r.1 is None
            } else {
                r.0@ == addr@.take(i) && r.1 == text::spec_parse_u16(addr@.skip(i + 1))
            }
        }),
{
    let (host, rest) = text::split_once_char(addr, ':');
    match rest {
        None => (host, None),
        Some(p) => {
            let port = text::parse_u16(p.as_str());
            (host, port)
        },
    }
}

/// A URL pointed at a proxy upstream: only the host and port are rewritten.
pub fn rewrite_upstream(u: &GemUrl, host: String, port: Option<u16>) -> (r: GemUrl)
    ensures
        r@.scheme == u@.scheme,
        r@.host == Some(host@),
        r@.port == port,
        r@.path == u@.path,
        r@.query == u@.query,
{
    GemUrl {
        scheme: u.scheme.clone(),
        host: Some(host),
        port,
        path: u.path.clone(),
        query: match &u.query {
            Some(q) => Some(q.clone()),
            None => None,
        },
    }
}

/// The request line sent upstream in passthrough mode: the whole rewritten
/// URL, then CRLF.
pub fn passthrough_request(u: &GemUrl) -> (r: Vec<u8>)
    ensures
        r@ == vstd::utf8::encode_utf8(spec_url_chars(u@)) + seq![13u8, 10u8],
{
    let s = crate::request::url_string(u);
    let mut v: Vec<u8> = Vec::new();
    text::push_bytes(&mut v, s.as_str().as_bytes());
    v.push(13);
    v.push(10);
    proof {
        assert(v@ =~= vstd::utf8::encode_utf8(spec_url_chars(u@)) + seq![13u8, 10u8]);
    }
    v
}

/// What segment-mapped proxying forwards: the path after its first nonempty
/// segment, or nothing when that remainder is empty or a bare separator.
pub open spec fn spec_segment_remainder(upath: Seq<char>) -> Option<Seq<char>> {
    let t = text::spec_trim_start_char(upath, '/');
    let i = text::spec_find_char(t, '/');
    if i < 0 {
        None
    } else {
        let rest = t.skip(i + 1);
        if rest.len() == 0 || rest == "/"@ {
            None
        } else {
            Some(rest)
        }
    }
}

/// The plan for a segment-mapped proxy request: the upstream request text,
/// or the refusal to answer with.
pub enum SegmentPlan {
    Refuse(Status),
    Forward(String),
}

/// Plans segment-mapped forwarding, as `spec_segment_remainder` describes; a
/// path with fewer than two nonempty parts is refused as not found.
pub fn proxy_segment_plan(u: &GemUrl) -> (r: SegmentPlan)
    ensures
        spec_segment_remainder(u@.path) is None ==> r == SegmentPlan::Refuse(Status::NotFound),
        spec_segment_remainder(u@.path) is Some ==> r is Forward && r->Forward_0@
            == spec_segment_remainder(u@.path).unwrap(),
{
    let t = text::trim_start_char(u.path.as_str(), '/');
    let (_first, rest) = text::split_once_char(t.as_str(), '/');
    match rest {
        None => SegmentPlan::Refuse(Status::NotFound),
        Some(p) => {
            if p.as_str().unicode_len() == 0 || text::str_eq(p.as_str(), "/") {
                SegmentPlan::Refuse(Status::NotFound)
            } else {
                SegmentPlan::Forward(p)
            }
        },
    }
}

} // verus!
