use vstd::prelude::*;

use crate::text;

verus! {

/// Response status of the protocol. Codes are two-digit values grouped by
/// leading digit: 1 input required, 2 success, 3 redirect, 4 temporary
/// failure, 5 permanent failure, 6 client certificate required.
#[derive(Clone, Copy, PartialEq, Eq, Structural, Debug)]
pub enum Status {
    Input,
    Success,
    RedirectTemporary,
    RedirectPermanent,
    CGIError,
    ProxyError,
    NotFound,
    ProxyRequestRefused,
    BadRequest,
}

impl Status {
    /// The two-digit wire code of this status.
    pub open spec fn spec_code(self) -> u8 {
        match self {
            Status::Input => 10,
            Status::Success => 20,
            Status::RedirectTemporary => 30,
            Status::RedirectPermanent => 31,
            Status::CGIError => 42,
            Status::ProxyError => 43,
            Status::NotFound => 51,
            Status::ProxyRequestRefused => 53,
            Status::BadRequest => 59,
        }
    }

    #[verifier::when_used_as_spec(spec_code)]
    pub fn code(self) -> (c: u8)
        ensures
            c == self.spec_code(),
    {
        match self {
            Status::Input => 10,
            Status::Success => 20,
            Status::RedirectTemporary => 30,
            Status::RedirectPermanent => 31,
            Status::CGIError => 42,
            Status::ProxyError => 43,
            Status::NotFound => 51,
            Status::ProxyRequestRefused => 53,
            Status::BadRequest => 59,
        }
    }

    /// A status is in the success group when its leading digit is 2.
    pub open spec fn spec_is_success(self) -> bool {
        20 <= self.spec_code() <= 29
    }

    #[verifier::when_used_as_spec(spec_is_success)]
    pub fn is_success(self) -> (r: bool)
        ensures
            r == self.spec_is_success(),
    {
        let c = self.code();
        20 <= c && c <= 29
    }

    /// The default textual meta used when a response supplies none.
    pub open spec fn spec_default_meta(self) -> Seq<char> {
        match self {
            Status::Input => "Input"@,
            Status::Success => "Success"@,
            Status::RedirectTemporary => "Redirect - Temporary"@,
            Status::RedirectPermanent => "Redirect - Permanent"@,
            Status::CGIError => "CGI Error"@,
            Status::ProxyError => "Proxy Error"@,
            Status::NotFound => "Not Found"@,
            Status::ProxyRequestRefused => "Proxy Request Refused"@,
            Status::BadRequest => "Bad Request"@,
        }
    }

    pub fn default_meta(self) -> (m: String)
        ensures
            m@ == self.spec_default_meta(),
    {
        match self {
            Status::Input => String::from_str("Input"),
            Status::Success => String::from_str("Success"),
            Status::RedirectTemporary => String::from_str("Redirect - Temporary"),
            Status::RedirectPermanent => String::from_str("Redirect - Permanent"),
            Status::CGIError => String::from_str("CGI Error"),
            Status::ProxyError => String::from_str("Proxy Error"),
            Status::NotFound => String::from_str("Not Found"),
            Status::ProxyRequestRefused => String::from_str("Proxy Request Refused"),
            Status::BadRequest => String::from_str("Bad Request"),
        }
    }
}

/// The wire form of a response header: the two code digits, one space, the
/// meta text, then CRLF.
pub open spec fn spec_response_head(status: Status, meta: Seq<char>) -> Seq<u8> {
    let c = status.spec_code();
    seq![(48 + c / 10) as u8, (48 + c % 10) as u8, 32u8] + vstd::utf8::encode_utf8(meta)
        + seq![13u8, 10u8]
}

/// Builds the `<status> <meta>\r\n` header that precedes every response body.
pub fn response_head(status: Status, meta: &str) -> (v: Vec<u8>)
    ensures
        v@ == spec_response_head(status, meta@),
{
    let c = status.code();
    let mut v: Vec<u8> = Vec::new();
    v.push(48 + c / 10);
    v.push(48 + c % 10);
    v.push(32);
    text::push_bytes(&mut v, meta.as_bytes());
    v.push(13);
    v.push(10);
    proof {
        assert(v@ =~= spec_response_head(status, meta@));
    }
    v
}

} // verus!
