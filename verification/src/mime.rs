use vstd::prelude::*;
use vstd::string::*;

use crate::paths;

verus! {

/// What guessing a media type from a file extension yields: a static table
/// lookup, a function of the extension alone.
pub uninterp spec fn mime_guess_of(ext: Seq<char>) -> Option<Seq<char>>;

/// Relies on new_mime_guess::from_ext, MimeGuess::first and Mime::essence_str:
/// the essence of the first media type guessed for the extension, if any.
#[verifier::external_body]
fn guess_mime(ext: &str) -> (r: Option<String>)
    ensures
        r is Some <==> mime_guess_of(ext@) is Some,
        r matches Some(m) ==> mime_guess_of(ext@) == Some(m@),
{
    new_mime_guess::from_ext(ext).first().map(|m| m.essence_str().to_string())
}

/// The media type served for a path: `text/gemini` for a directory,
/// `text/plain` without an extension or a known type, else the guessed type.
pub open spec fn spec_mime(is_dir: bool, path: Seq<char>) -> Seq<char> {
    if is_dir {
        "text/gemini"@
    } else {
        match paths::spec_extension(path) {
            None => "text/plain"@,
            Some(e) => match mime_guess_of(e) {
                None => "text/plain"@,
                Some(m) => m,
            },
        }
    }
}

/// Determines the media type of a path, as `spec_mime` describes.
pub fn get_mime(is_dir: bool, path: &str) -> (r: String)
    ensures
        r@ == spec_mime(is_dir, path@),
{
    if is_dir {
        return String::from_str("text/gemini");
    }
    match paths::extension_of(path) {
        None => String::from_str("text/plain"),
        Some(ext) => match guess_mime(ext.as_str()) {
            None => String::from_str("text/plain"),
            Some(m) => m,
        },
    }
}

/// The media type with the configured language parameter: appended exactly
/// when the type is `text/gemini` and a language tag is configured.
pub open spec fn spec_mime_with_lang(mime: Seq<char>, lang: Option<Seq<char>>) -> Seq<char> {
    match lang {
        Some(l) => if mime == "text/gemini"@ {
            mime + "; lang="@ + l
        } else {
            mime
        },
        None => mime,
    }
}

/// Appends the configured language parameter, as `spec_mime_with_lang`
/// describes.
pub fn mime_with_lang(mime: String, lang: &Option<String>) -> (r: String)
    ensures
        r@ == spec_mime_with_lang(mime@, crate::config::spec_opt_chars(*lang)),
{
    match lang {
        Some(l) => {
            if crate::text::str_eq(mime.as_str(), "text/gemini") {
                let mut r = mime;
                r.append("; lang=");
                r.append(l.as_str());
                r
            } else {
                mime
            }
        },
        None => mime,
    }
}

} // verus!
