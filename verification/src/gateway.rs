use vstd::prelude::*;
use vstd::string::*;

use crate::config::{spec_map_of_entries, Server, StrMap};
use crate::paths;
use crate::request::{spec_url_chars, GemUrl, UrlModel};
use crate::routing::{spec_any_exec, FileKind, FileMeta};
use crate::text;
use crate::util;

verus! {

/// What the subject common name of a certificate is: a function of the
/// certificate's bytes alone.
pub uninterp spec fn x509_cn_of(der: Seq<u8>) -> Option<Seq<char>>;

/// Relies on x509_parser::parse_x509_certificate and X509Name's common-name
/// iterator: the first common name of the subject, when the bytes parse as a
/// certificate and that name is a character string.
#[verifier::external_body]
fn cert_common_name(der: &[u8]) -> (r: Option<String>)
    ensures
        r is Some <==> x509_cn_of(der@) is Some,
        r matches Some(c) ==> x509_cn_of(der@) == Some(c@),
{
    match x509_parser::parse_x509_certificate(der) {
        Ok((_, x509)) => x509.subject().iter_common_name().next().and_then(
            |cn| cn.as_str().ok(),
        ).map(|s| s.to_string()),
        Err(_) => None,
    }
}

/// The environment handed to a gateway invocation before the host's extra
/// entries are merged: request metadata, the caller's address, and — only
/// when a client certificate was presented and carries a readable common
/// name — the certificate identity variables.
pub open spec fn spec_base_envs(
    peer_ip: Seq<char>,
    peer_port: u16,
    u: UrlModel,
    cert: Option<Seq<u8>>,
) -> Map<Seq<char>, Seq<char>> {
    let base = Map::<Seq<char>, Seq<char>>::empty().insert(
        "GATEWAY_INTERFACE"@,
        "CGI/1.1"@,
    ).insert("GEMINI_URL"@, spec_url_chars(u)).insert("SERVER_NAME"@, u.host.unwrap()).insert(
        "SERVER_PROTOCOL"@,
        "GEMINI"@,
    ).insert("REMOTE_ADDR"@, peer_ip).insert("REMOTE_HOST"@, peer_ip).insert(
        "REMOTE_PORT"@,
        text::dec_chars_of(peer_port as nat),
    ).insert("SERVER_SOFTWARE"@, "gemserv"@);
    let with_query = match u.query {
        Some(q) => base.insert("QUERY_STRING"@, q),
        None => base,
    };
    match cert {
        Some(der) => match x509_cn_of(der) {
            Some(cn) => with_query.insert("AUTH_TYPE"@, "Certificate"@).insert(
                "REMOTE_USER"@,
                cn,
            ).insert("TLS_CLIENT_HASH"@, util::spec_fingerhex(der)),
            None => with_query,
        },
        None => with_query,
    }
}

/// The full gateway environment: the base entries, overridden by the host's
/// configured extra entries.
pub open spec fn spec_envs(
    peer_ip: Seq<char>,
    peer_port: u16,
    u: UrlModel,
    cert: Option<Seq<u8>>,
    srv: Server,
) -> Map<Seq<char>, Seq<char>> {
    let base = spec_base_envs(peer_ip, peer_port, u, cert);
    match srv.cgienv {
        Some(m) => base.union_prefer_right(m.as_map()),
        None => base,
    }
}

/// Builds the gateway environment, as `spec_envs` describes. A certificate
/// whose subject carries no readable common name contributes no identity
/// variables.
pub fn build_envs(
    peer_ip: &str,
    peer_port: u16,
    u: &GemUrl,
    client_cert: Option<&[u8]>,
    srv: &Server,
) -> (r: StrMap)
    requires
        u.host is Some,
        srv.wf(),
    ensures
        r.wf(),
        r.as_map() == spec_envs(
            peer_ip@,
            peer_port,
            u@,
            match client_cert {
                Some(d) => Some(d@),
                None => None,
            },
            *srv,
        ),
{
    let mut r = StrMap::new();
    r.insert(String::from_str("GATEWAY_INTERFACE"), String::from_str("CGI/1.1"));
    r.insert(String::from_str("GEMINI_URL"), crate::request::url_string(u));
    let host = match &u.host {
        Some(h) => h.clone(),
        None => String::new(),
    };
    r.insert(String::from_str("SERVER_NAME"), host);
    r.insert(String::from_str("SERVER_PROTOCOL"), String::from_str("GEMINI"));
    r.insert(String::from_str("REMOTE_ADDR"), String::from_str(peer_ip));
    r.insert(String::from_str("REMOTE_HOST"), String::from_str(peer_ip));
    r.insert(String::from_str("REMOTE_PORT"), text::dec_string(peer_port as u64));
    r.insert(String::from_str("SERVER_SOFTWARE"), String::from_str("gemserv"));
    match &u.query {
        Some(q) => {
            r.insert(String::from_str("QUERY_STRING"), q.clone());
        },
        None => {},
    }
    match client_cert {
        Some(der) => {
            match cert_common_name(der) {
                Some(cn) => {
                    r.insert(String::from_str("AUTH_TYPE"), String::from_str("Certificate"));
                    r.insert(String::from_str("REMOTE_USER"), cn);
                    r.insert(String::from_str("TLS_CLIENT_HASH"), util::fingerhex(der));
                },
                None => {},
            }
        },
        None => {},
    }
    let ghost base = spec_base_envs(
        peer_ip@,
        peer_port,
        u@,
        match client_cert {
            Some(d) => Some(d@),
            None => None,
        },
    );
    proof {
        assert(r.as_map() =~= base);
    }
    match &srv.cgienv {
        Some(m) => {
            let n = m.len();
            proof {
                assert(m.entries().take(0) =~= Seq::<(Seq<char>, Seq<char>)>::empty());
                assert(r.as_map() =~= base.union_prefer_right(
                    spec_map_of_entries(m.entries().take(0)),
                ));
            }
            for i in 0..n
                invariant
                    n == m.entries().len(),
                    m.wf(),
                    r.wf(),
                    r.as_map() == base.union_prefer_right(
                        spec_map_of_entries(m.entries().take(i as int)),
                    ),
            {
                let (k, v) = m.entry_at(i);
                let k = k.clone();
                let v = v.clone();
                r.insert(k, v);
                proof {
                    assert(m.entries().take(i + 1).drop_last() =~= m.entries().take(i as int));
                    assert(m.entries().take(i + 1).last() == m.entries()[i as int]);
                    assert(r.as_map() =~= base.union_prefer_right(
                        spec_map_of_entries(m.entries().take(i + 1)),
                    ));
                }
            }
            proof {
                assert(m.entries().take(n as int) =~= m.entries());
                crate::config::lemma_strmap_fold(*m);
                assert(r.as_map() =~= base.union_prefer_right(m.as_map()));
            }
        },
        None => {},
    }
    r
}

/// Whether gateway dispatch is switched on for the host.
pub fn cgi_enabled(srv: &Server) -> (r: bool)
    ensures
        r == (srv.cgi == Some(true)),
{
    match srv.cgi {
        Some(b) => b,
        None => false,
    }
}

/// How a path fares under gateway dispatch.
#[derive(Clone, Copy, PartialEq, Eq, Structural, Debug)]
pub enum CgiDecision {
    Run,
    Deny,
    NotGateway,
}

/// The decision: with a configured gateway subtree, a path inside it runs
/// when executable and is denied when not; without one, any executable file
/// runs; everything else falls through to static serving.
pub open spec fn spec_cgi_decision(srv: Server, path: Seq<char>, meta: FileMeta) -> CgiDecision {
    if srv.cgi != Some(true) {
        CgiDecision::NotGateway
    } else {
        match srv.cgipath {
            Some(c) => if paths::spec_path_starts_with(path, c@) {
                if spec_any_exec(meta.mode) {
                    CgiDecision::Run
                } else {
                    CgiDecision::Deny
                }
            } else {
                CgiDecision::NotGateway
            },
            None => if meta.kind == FileKind::File && spec_any_exec(meta.mode) {
                CgiDecision::Run
            } else {
                CgiDecision::NotGateway
            },
        }
    }
}

/// Decides gateway dispatch for a path, as `spec_cgi_decision` describes.
pub fn cgi_decision(srv: &Server, path: &str, meta: FileMeta) -> (r: CgiDecision)
    ensures
        r == spec_cgi_decision(*srv, path@, meta),
{
    if !cgi_enabled(srv) {
        return CgiDecision::NotGateway;
    }
    match &srv.cgipath {
        Some(c) => {
            if paths::path_starts_with(path, c.as_str()) {
                if crate::routing::any_exec(meta.mode) {
                    CgiDecision::Run
                } else {
                    CgiDecision::Deny
                }
            } else {
                CgiDecision::NotGateway
            }
        },
        None => {
            let is_file = match meta.kind {
                FileKind::File => true,
                _ => false,
            };
            if is_file && crate::routing::any_exec(meta.mode) {
                CgiDecision::Run
            } else {
                CgiDecision::NotGateway
            }
        },
    }
}

/// The URL path's segments: the slash-separated pieces after the leading
/// separator.
pub open spec fn spec_url_segments(upath: Seq<char>) -> Seq<Seq<char>> {
    text::spec_split_char(upath.skip(1), '/')
}

/// The script name after the last `k` segments were consumed as extra path
/// information: the remaining segments rejoined behind one separator.
pub open spec fn spec_script_name(upath: Seq<char>, k: int) -> Seq<char> {
    let segs = spec_url_segments(upath);
    "/"@ + text::spec_join_char(segs.take(segs.len() - k), '/')
}

/// The extra path information gathered while walking `k` segments up: each
/// consumed segment behind its separator, innermost first.
pub open spec fn spec_path_info(segs: Seq<Seq<char>>, k: int) -> Seq<char>
    decreases k,
{
    if k <= 0 {
        Seq::empty()
    } else {
        "/"@ + segs[segs.len() - k] + spec_path_info(segs, k - 1)
    }
}

/// Names the script and the extra path information after ancestor discovery
/// consumed the last `consumed` segments of the URL path.
pub fn cgi_walk_names(u: &GemUrl, consumed: usize) -> (r: (String, String))
    requires
        u@.path.len() > 0 && u@.path[0] == '/',
        consumed <= spec_url_segments(u@.path).len(),
    ensures
        r.0@ == spec_script_name(u@.path, consumed as int),
        r.1@ == spec_path_info(spec_url_segments(u@.path), consumed as int),
{
    let n = u.path.as_str().unicode_len();
    let tail = String::from_str(u.path.as_str().substring_char(1, n));
    proof {
        assert(u.path@.subrange(1, n as int) =~= u.path@.skip(1));
    }
    let segs = text::split_char(tail.as_str(), '/');
    let m = segs.len();
    let mut script = String::from_str("/");
    proof {
        reveal_strlit("/");
        assert("/"@ =~= seq!['/']);
    }
    let joined = text::join_range(&segs, 0, m - consumed, '/', "/");
    script.append(joined.as_str());
    proof {
        assert(text::strs_view(segs@).take(m - consumed as int) =~= text::strs_view(
            segs@,
        ).subrange(0, m - consumed as int));
    }
    let mut info = String::new();
    let mut t: usize = 0;
    while t < consumed
        invariant
            t <= consumed <= m == segs@.len(),
            text::strs_view(segs@) == spec_url_segments(u@.path),
            info@ == spec_path_info(text::strs_view(segs@), t as int),
        decreases consumed - t,
    {
        let mut next = String::from_str("/");
        next.append(segs[m - 1 - t].as_str());
        next.append(info.as_str());
        info = next;
        t = t + 1;
        proof {
            assert(info@ =~= spec_path_info(text::strs_view(segs@), t as int));
        }
    }
    (script, info)
}

/// The answer to captured gateway output.
pub enum GatewayReply {
    Forward(Vec<u8>),
    Fail,
}

/// Validates captured gateway output: it is forwarded verbatim and unmodified
/// exactly when its first byte is an ASCII digit naming an accepted status
/// group (1 through 6); empty output, or output opening with any other byte,
/// is refused, and none of its bytes is forwarded.
pub fn gateway_reply(output: Vec<u8>) -> (r: GatewayReply)
    ensures
        output@.len() == 0 ==> r == GatewayReply::Fail,
        output@.len() > 0 && !(49 <= output@[0] <= 54) ==> r == GatewayReply::Fail,
        output@.len() > 0 && 49 <= output@[0] <= 54 ==> r == GatewayReply::Forward(output),
{
    if output.len() == 0 {
        return GatewayReply::Fail;
    }
    let b = output[0];
    if 49 <= b && b <= 54 {
        GatewayReply::Forward(output)
    } else {
        GatewayReply::Fail
    }
}

/// One name/value pair of the framed record: each part's bytes behind a
/// terminating NUL.
pub open spec fn spec_record_pair(k: Seq<char>, v: Seq<char>) -> Seq<u8> {
    vstd::utf8::encode_utf8(k) + seq![0u8] + vstd::utf8::encode_utf8(v) + seq![0u8]
}

/// The environment entries of the framed record, in table order.
pub open spec fn spec_record_pairs(es: Seq<(Seq<char>, Seq<char>)>) -> Seq<u8>
    decreases es.len(),
{
    if es.len() == 0 {
        Seq::empty()
    } else {
        spec_record_pairs(es.drop_last()) + spec_record_pair(es.last().0, es.last().1)
    }
}

/// The payload of the backend request record: the fixed leading pairs, then
/// every environment entry. Requests of this protocol carry no body, so the
/// content length is always zero.
pub open spec fn spec_record_payload(es: Seq<(Seq<char>, Seq<char>)>, upath: Seq<char>) -> Seq<
    u8,
> {
    spec_record_pair("CONTENT_LENGTH"@, "0"@) + spec_record_pair("SCGI"@, "1"@)
        + spec_record_pair("REQUEST_METHOD"@, "POST"@) + spec_record_pair("REQUEST_URI"@, upath)
        + spec_record_pairs(es)
}

/// A length-prefixed record: the decimal byte length of the payload, a
/// colon, the payload, a trailing comma.
pub open spec fn spec_netstring(p: Seq<u8>) -> Seq<u8> {
    text::dec_bytes_of(p.len()) + seq![58u8] + p + seq![44u8]
}

fn push_pair(dst: &mut Vec<u8>, k: &str, v: &str)
    ensures
        final(dst)@ == old(dst)@ + spec_record_pair(k@, v@),
{
    text::push_bytes(dst, k.as_bytes());
    dst.push(0);
    text::push_bytes(dst, v.as_bytes());
    dst.push(0);
    proof {
        assert(dst@ =~= old(dst)@ + spec_record_pair(k@, v@));
    }
}

/// Frames the gateway environment as one length-prefixed record, emitted
/// well-formed; backends that tolerated an irregular leading block also
/// accept this one.
pub fn scgi_record(envs: &StrMap, u: &GemUrl) -> (r: Vec<u8>)
    requires
        envs.wf(),
    ensures
        r@ == spec_netstring(spec_record_payload(envs.entries(), u@.path)),
{
    let mut payload: Vec<u8> = Vec::new();
    push_pair(&mut payload, "CONTENT_LENGTH", "0");
    push_pair(&mut payload, "SCGI", "1");
    push_pair(&mut payload, "REQUEST_METHOD", "POST");
    push_pair(&mut payload, "REQUEST_URI", u.path.as_str());
    let ghost fixed = payload@;
    let n = envs.len();
    proof {
        assert(envs.entries().take(0) =~= Seq::<(Seq<char>, Seq<char>)>::empty());
        assert(payload@ =~= fixed + spec_record_pairs(envs.entries().take(0)));
    }
    for i in 0..n
        invariant
            n == envs.entries().len(),
            payload@ == fixed + spec_record_pairs(envs.entries().take(i as int)),
            fixed == spec_record_pair("CONTENT_LENGTH"@, "0"@) + spec_record_pair("SCGI"@, "1"@)
                + spec_record_pair("REQUEST_METHOD"@, "POST"@) + spec_record_pair(
                "REQUEST_URI"@,
                u@.path,
            ),
    {
        let (k, v) = envs.entry_at(i);
        push_pair(&mut payload, k.as_str(), v.as_str());
        proof {
            assert(envs.entries().take(i + 1).drop_last() =~= envs.entries().take(i as int));
            assert(envs.entries().take(i + 1).last() == envs.entries()[i as int]);
            assert(payload@ =~= fixed + spec_record_pairs(envs.entries().take(i + 1)));
        }
    }
    proof {
        assert(envs.entries().take(n as int) =~= envs.entries());
        assert(payload@ =~= spec_record_payload(envs.entries(), u@.path));
    }
    let mut r = text::dec_bytes(payload.len() as u64);
    r.push(58);
    text::push_bytes(&mut r, payload.as_slice());
    r.push(44);
    proof {
        assert(r@ =~= spec_netstring(payload@));
    }
    r
}

} // verus!
