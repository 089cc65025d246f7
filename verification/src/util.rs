use vstd::prelude::*;
use vstd::string::*;

use crate::text;

verus! {

/// What form-decoding a byte string yields: percent- and plus-decoding with
/// the pair structure flattened, a function of the bytes alone.
pub uninterp spec fn form_decoded_of(b: Seq<u8>) -> Seq<char>;

/// Relies on url::form_urlencoded::parse: decodes percent escapes and plus
/// signs, concatenating the keys and values the parser hands back.
#[verifier::external_body]
pub fn url_decode(url: &[u8]) -> (r: String)
    ensures
        r@ == form_decoded_of(url@),
{
    let decoded: String = url::form_urlencoded::parse(url).map(
        |(key, val)| [key, val].concat(),
    ).collect();
    decoded
}

/// What the SHA-256 digest of a byte string is: a function of the bytes
/// alone.
pub uninterp spec fn sha256_of(b: Seq<u8>) -> Seq<u8>;

/// Relies on sha2::Sha256: the 32-byte digest of the input.
#[verifier::external_body]
fn sha256(b: &[u8]) -> (r: Vec<u8>)
    ensures
        r@ == sha256_of(b@),
        r@.len() == 32,
{
    let mut finger = <sha2::Sha256 as sha2::Digest>::new();
    sha2::Digest::update(&mut finger, b);
    sha2::Digest::finalize(finger).to_vec()
}

/// The fingerprint of a certificate: the prefix `SHA256:` and the digest of
/// its bytes in colon-free uppercase hexadecimal.
pub open spec fn spec_fingerhex(x509: Seq<u8>) -> Seq<char> {
    "SHA256:"@ + text::spec_hex_upper(sha256_of(x509))
}

/// Renders a certificate's fingerprint, as `spec_fingerhex` describes.
pub fn fingerhex(x509: &[u8]) -> (r: String)
    ensures
        r@ == spec_fingerhex(x509@),
        r@.len() == 71,
{
    let digest = sha256(x509);
    let mut hex = String::from_str("SHA256:");
    let tail = text::hex_upper(digest.as_slice());
    hex.append(tail.as_str());
    proof {
        reveal_strlit("SHA256:");
        lemma_hex_len(sha256_of(x509@));
    }
    hex
}

proof fn lemma_hex_len(v: Seq<u8>)
    ensures
        text::spec_hex_upper(v).len() == 2 * v.len(),
    decreases v.len(),
{
    if v.len() > 0 {
        lemma_hex_len(v.drop_last());
    }
}

} // verus!
