use vstd::prelude::*;
use vstd::string::*;

use crate::status::Status;
use crate::text;

verus! {

/// The parts of an absolute URL that the server reads.
#[derive(Debug)]
pub struct GemUrl {
    pub scheme: String,
    pub host: Option<String>,
    pub port: Option<u16>,
    pub path: String,
    pub query: Option<String>,
}

/// Mathematical model of a parsed URL.
pub ghost struct UrlModel {
    pub scheme: Seq<char>,
    pub host: Option<Seq<char>>,
    pub port: Option<u16>,
    pub path: Seq<char>,
    pub query: Option<Seq<char>>,
}

impl View for GemUrl {
    type V = UrlModel;

    open spec fn view(&self) -> UrlModel {
        UrlModel {
            scheme: self.scheme@,
            host: match self.host {
                Some(h) => Some(h@),
                None => None,
            },
            port: self.port,
            path: self.path@,
            query: match self.query {
                Some(q) => Some(q@),
                None => None,
            },
        }
    }
}

/// What parsing a line as an absolute URL yields: the URL's parts, or nothing
/// when the line is no absolute URL.
pub uninterp spec fn url_parse_of(s: Seq<char>) -> Option<UrlModel>;

/// Relies on url::Url::parse together with the accessors scheme, host_str,
/// port, path and query: `Some` exactly when the line parses as an absolute
/// URL, and then its parts.
#[verifier::external_body]
pub(crate) fn parse_url(s: &str) -> (r: Option<GemUrl>)
    ensures
        r is Some <==> url_parse_of(s@) is Some,
        r matches Some(u) ==> url_parse_of(s@) == Some(u@),
{
    match url::Url::parse(s) {
        Ok(u) => Some(
            GemUrl {
                scheme: u.scheme().to_string(),
                host: u.host_str().map(|h| h.to_string()),
                port: u.port(),
                path: u.path().to_string(),
                query: u.query().map(|q| q.to_string()),
            },
        ),
        Err(_) => None,
    }
}

/// What lowercasing a string yields.
pub uninterp spec fn lower_of(s: Seq<char>) -> Seq<char>;

/// Relies on str::to_lowercase: the result depends on the characters alone.
#[verifier::external_body]
pub(crate) fn lowercase(s: &str) -> (r: String)
    ensures
        r@ == lower_of(s@),
{
    s.to_lowercase()
}

/// Relies on String::from_utf8: `Some` exactly on valid UTF-8, and then the
/// decoded characters.
#[verifier::external_body]
fn utf8_to_string(v: Vec<u8>) -> (r: Option<String>)
    ensures
        r is Some <==> vstd::utf8::valid_utf8(v@),
        r matches Some(s) ==> s@ == vstd::utf8::decode_utf8(v@),
{
    String::from_utf8(v).ok()
}

/// A request line starting with `//` is completed with the protocol scheme.
pub open spec fn spec_rewrite(s: Seq<char>) -> Seq<char> {
    if s.len() >= 2 && s[0] == '/' && s[1] == '/' {
        "gemini:"@ + s
    } else {
        s
    }
}

/// A trailing line feed is dropped, together with a carriage return right
/// before it.
pub open spec fn spec_strip(s: Seq<char>) -> Seq<char> {
    if s.len() > 0 && s.last() == '\n' {
        let t = s.drop_last();
        if t.len() > 0 && t.last() == '\r' {
            t.drop_last()
        } else {
            t
        }
    } else {
        s
    }
}

/// The line contains two dots in a row.
pub open spec fn spec_has_dotdot(s: Seq<char>) -> bool {
    exists|i: int| 0 <= i && i + 1 < s.len() && #[trigger] s[i] == '.' && #[trigger] s[i + 1] == '.'
}

/// The request line after decoding: scheme completion, then newline stripping.
pub open spec fn spec_processed(bytes: Seq<u8>) -> Seq<char> {
    spec_strip(spec_rewrite(vstd::utf8::decode_utf8(bytes)))
}

/// The URL names a host that is not the lowercased TLS-matched hostname.
pub open spec fn spec_host_rejected(u: UrlModel, hostname: Seq<char>) -> bool {
    match u.host {
        Some(h) => lower_of(h) != hostname,
        None => false,
    }
}

/// The URL carries an explicit port differing from the listener's.
pub open spec fn spec_port_mismatch(u: UrlModel, local_port: u16) -> bool {
    match u.port {
        Some(p) => p != local_port,
        None => false,
    }
}

fn rewrite_line(s: String) -> (r: String)
    ensures
        r@ == spec_rewrite(s@),
{
    let n = s.as_str().unicode_len();
    if n >= 2 && s.as_str().get_char(0) == '/' && s.as_str().get_char(1) == '/' {
        let mut r = String::from_str("gemini:");
        r.append(s.as_str());
        r
    } else {
        s
    }
}

fn strip_line(s: String) -> (r: String)
    ensures
        r@ == spec_strip(s@),
{
    let n = s.as_str().unicode_len();
    if n > 0 && s.as_str().get_char(n - 1) == '\n' {
        if n > 1 && s.as_str().get_char(n - 2) == '\r' {
            let r = String::from_str(s.as_str().substring_char(0, n - 2));
            proof {
                assert(s@.drop_last().drop_last() =~= s@.subrange(0, n - 2));
            }
            r
        } else {
            let r = String::from_str(s.as_str().substring_char(0, n - 1));
            proof {
                assert(s@.drop_last() =~= s@.subrange(0, n - 1));
            }
            r
        }
    } else {
        s
    }
}

fn has_dotdot(s: &str) -> (r: bool)
    ensures
        r == spec_has_dotdot(s@),
{
    let n = s.unicode_len();
    if n < 2 {
        return false;
    }
    for i in 0..n - 1
        invariant
            2 <= n == s@.len(),
            forall|j: int| 0 <= j < i ==> !(#[trigger] s@[j] == '.' && s@[j + 1] == '.'),
    {
        if s.get_char(i) == '.' && s.get_char(i + 1) == '.' {
            return true;
        }
    }
    false
}

/// The answer of request validation: a status to reject with, or the accepted
/// URL. The flag on acceptance records a port mismatch that is answered with
/// a refusal but deliberately does not halt dispatch.
#[derive(Debug)]
pub enum RequestOutcome {
    Reject(Status),
    Accept(GemUrl, bool),
}

/// Reads one request line: decodes it as UTF-8, completes a bare `//` line
/// with the protocol scheme, strips the line ending, guards against `..`,
/// parses the rest as an absolute URL, and holds the URL against the
/// TLS-matched hostname, the listener port and the protocol scheme.
///
/// Any request containing two dots in a row is rejected as a bad request,
/// whatever else it holds; any URL whose scheme is not the protocol scheme is
/// answered with the refusal status.
pub fn validate_request(raw: Vec<u8>, hostname: &str, local_port: u16) -> (r: RequestOutcome)
    ensures
        !vstd::utf8::valid_utf8(raw@) ==> r == RequestOutcome::Reject(Status::BadRequest),
        vstd::utf8::valid_utf8(raw@) ==> ({
            let line = spec_processed(raw@);
            let pu = url_parse_of(line);
            &&& spec_has_dotdot(vstd::utf8::decode_utf8(raw@)) ==> r == RequestOutcome::Reject(
                Status::BadRequest,
            )
            &&& spec_has_dotdot(line) ==> r == RequestOutcome::Reject(Status::BadRequest)
            &&& !spec_has_dotdot(line) && pu is None ==> r == RequestOutcome::Reject(
                Status::BadRequest,
            )
            &&& !spec_has_dotdot(line) && pu is Some ==> ({
                let u = pu.unwrap();
                &&& spec_host_rejected(u, hostname@) ==> r == RequestOutcome::Reject(
                    Status::ProxyRequestRefused,
                )
                &&& u.scheme != "gemini"@ ==> r == RequestOutcome::Reject(
                    Status::ProxyRequestRefused,
                )
                &&& !spec_host_rejected(u, hostname@) && u.scheme == "gemini"@ ==> {
                    &&& r is Accept
                    &&& r->Accept_0@ == u
                    &&& r->Accept_1 == spec_port_mismatch(u, local_port)
                }
            })
        }),
{
    let decoded = match utf8_to_string(raw) {
        Some(s) => s,
        None => {
            return RequestOutcome::Reject(Status::BadRequest);
        },
    };
    proof {
        lemma_dotdot_preserved(decoded@);
    }
    let line = strip_line(rewrite_line(decoded));
    if has_dotdot(line.as_str()) {
        return RequestOutcome::Reject(Status::BadRequest);
    }
    let url = match parse_url(line.as_str()) {
        Some(u) => u,
        None => {
            return RequestOutcome::Reject(Status::BadRequest);
        },
    };
    match &url.host {
        Some(h) => {
            let low = lowercase(h.as_str());
            if !text::str_eq(hostname, low.as_str()) {
                return RequestOutcome::Reject(Status::ProxyRequestRefused);
            }
        },
        None => {},
    }
    let mismatch = match url.port {
        Some(p) => p != local_port,
        None => false,
    };
    if !text::str_eq(url.scheme.as_str(), "gemini") {
        return RequestOutcome::Reject(Status::ProxyRequestRefused);
    }
    RequestOutcome::Accept(url, mismatch)
}

/// Two dots in a row survive scheme completion and newline stripping.
proof fn lemma_dotdot_preserved(s: Seq<char>)
    ensures
        spec_has_dotdot(s) ==> spec_has_dotdot(spec_strip(spec_rewrite(s))),
{
    reveal_strlit("gemini:");
    if spec_has_dotdot(s) {
        let i = choose|i: int|
            0 <= i && i + 1 < s.len() && #[trigger] s[i] == '.' && #[trigger] s[i + 1] == '.';
        let w = spec_rewrite(s);
        let rewritten = s.len() >= 2 && s[0] == '/' && s[1] == '/';
        let j = if rewritten {
            i + 7
        } else {
            i
        };
        if rewritten {
            assert(w == "gemini:"@ + s);
            assert("gemini:"@.len() == 7);
            assert(w[i + 7] == s[i]);
            assert(w[i + 8] == s[i + 1]);
        }
        assert(0 <= j && j + 1 < w.len() && w[j] == '.' && w[j + 1] == '.');
        // the stripped characters are a line feed and a carriage return, so
        // the two dots lie inside the kept prefix
        let t = spec_strip(w);
        if w.len() > 0 && w.last() == '\n' {
            assert(w[w.len() - 1] == '\n');
            assert(j != w.len() - 1 && j + 1 != w.len() - 1);
            let u = w.drop_last();
            assert(u[j] == '.' && u[j + 1] == '.');
            if u.len() > 0 && u.last() == '\r' {
                assert(u[u.len() - 1] == '\r');
                assert(j != u.len() - 1 && j + 1 != u.len() - 1);
                assert(t == u.drop_last());
                assert(t[j] == '.' && t[j + 1] == '.');
            } else {
                assert(t == u);
            }
        } else {
            assert(t == w);
        }
        assert(0 <= j && j + 1 < t.len() && t[j] == '.' && t[j + 1] == '.');
        assert(spec_has_dotdot(t));
    }
}

/// The canonical serialization of a URL from its parts.
pub open spec fn spec_url_chars(m: UrlModel) -> Seq<char> {
    m.scheme + ":"@ + (match m.host {
        Some(h) => "//"@ + h + (match m.port {
            Some(p) => ":"@ + text::dec_chars_of(p as nat),
            None => Seq::<char>::empty(),
        }),
        None => Seq::<char>::empty(),
    }) + m.path + (match m.query {
        Some(q) => "?"@ + q,
        None => Seq::<char>::empty(),
    })
}

/// Serializes a URL, as `spec_url_chars` describes.
pub fn url_string(u: &GemUrl) -> (r: String)
    ensures
        r@ == spec_url_chars(u@),
{
    let mut r = String::from_str(u.scheme.as_str());
    r.append(":");
    match &u.host {
        Some(h) => {
            r.append("//");
            r.append(h.as_str());
            match u.port {
                Some(p) => {
                    r.append(":");
                    r.append(text::dec_string(p as u64).as_str());
                },
                None => {},
            }
        },
        None => {},
    }
    r.append(u.path.as_str());
    match &u.query {
        Some(q) => {
            r.append("?");
            r.append(q.as_str());
        },
        None => {},
    }
    proof {
        assert(r@ =~= spec_url_chars(u@));
    }
    r
}

} // verus!
