use vstd::prelude::*;
use vstd::string::*;

use crate::config::{spec_opt_chars, Server};
use crate::mime;
use crate::paths;
use crate::request::{spec_url_chars, GemUrl};
use crate::status::Status;
use crate::text;
use crate::util;

verus! {

/// What the filesystem reports of one path.
#[derive(Clone, Copy, PartialEq, Eq, Structural, Debug)]
pub enum FileKind {
    Missing,
    File,
    Dir,
}

/// Kind and permission bits of one path, as one stat call reports them.
#[derive(Clone, Copy, PartialEq, Eq, Structural, Debug)]
pub struct FileMeta {
    pub kind: FileKind,
    pub mode: u32,
}

/// All three read permission bits are set: readable by anyone.
pub open spec fn spec_world_readable(mode: u32) -> bool {
    mode & 0o444 == 0o444
}

pub fn world_readable(mode: u32) -> (r: bool)
    ensures
        r == spec_world_readable(mode),
{
    mode & 0o444 == 0o444
}

/// Some execute permission bit is set.
pub open spec fn spec_any_exec(mode: u32) -> bool {
    mode & 0o111 != 0
}

pub fn any_exec(mode: u32) -> (r: bool)
    ensures
        r == spec_any_exec(mode),
{
    mode & 0o111 != 0
}

/// The key a path is looked up under in the redirect and gateway-backend
/// tables: the root stays itself, any other path loses trailing separators.
pub open spec fn spec_table_key(upath: Seq<char>) -> Seq<char> {
    if upath == "/"@ {
        upath
    } else {
        text::spec_trim_end_char(upath, '/')
    }
}

fn table_key(upath: &str) -> (r: String)
    ensures
        r@ == spec_table_key(upath@),
{
    if text::str_eq(upath, "/") {
        String::from_str(upath)
    } else {
        text::trim_end_char(upath, '/')
    }
}

/// The redirect target configured for the URL path, if any.
pub open spec fn spec_redirect_target(srv: Server, upath: Seq<char>) -> Option<Seq<char>> {
    match srv.redirect {
        None => None,
        Some(m) => {
            let key = spec_table_key(upath);
            if m.contains_key(key) {
                Some(m.as_map()[key])
            } else {
                None
            }
        },
    }
}

/// The gateway backend configured for the URL path, if any.
pub open spec fn spec_scgi_backend(srv: Server, upath: Seq<char>) -> Option<Seq<char>> {
    match srv.scgi {
        None => None,
        Some(m) => {
            let key = spec_table_key(upath);
            if m.contains_key(key) {
                Some(m.as_map()[key])
            } else {
                None
            }
        },
    }
}

/// The upstream configured for the URL path's first segment, if any. A path
/// without a leading separator has no segments.
pub open spec fn spec_proxy_upstream(srv: Server, upath: Seq<char>) -> Option<Seq<char>> {
    match srv.proxy {
        None => None,
        Some(m) => if upath.len() > 0 && upath[0] == '/' {
            let seg = text::spec_split_char(upath.skip(1), '/')[0];
            if m.contains_key(seg) {
                Some(m.as_map()[seg])
            } else {
                None
            }
        } else {
            None
        },
    }
}

/// Whether serving from per-user directories is switched on.
pub open spec fn spec_usrdir_enabled(srv: Server) -> bool {
    srv.usrdir == Some(true)
}

/// The filesystem path a URL path resolves to: beneath the host's document
/// root after form-decoding, or, for `/~user/` paths with user directories
/// enabled, beneath that user's fixed public subdirectory.
pub open spec fn spec_fs_path(srv: Server, upath: Seq<char>) -> Seq<char> {
    if "/~"@.is_prefix_of(upath) && spec_usrdir_enabled(srv) {
        let rest = paths::spec_trim_prefix_rep(upath, "/~"@);
        let i = text::spec_find_char(rest, '/');
        if i < 0 {
            paths::spec_path_join("/home/"@, rest + "/public_gemini/"@)
        } else {
            paths::spec_path_join(
                "/home/"@,
                rest.take(i) + "/public_gemini/"@ + util::form_decoded_of(
                    vstd::utf8::encode_utf8(rest.skip(i + 1)),
                ),
            )
        }
    } else {
        paths::spec_path_join(
            srv.dir@,
            util::form_decoded_of(vstd::utf8::encode_utf8(text::spec_trim_start_char(upath, '/'))),
        )
    }
}

/// Maps a URL path to the filesystem, as `spec_fs_path` describes.
pub fn fs_path(srv: &Server, u: &GemUrl) -> (r: String)
    ensures
        r@ == spec_fs_path(*srv, u@.path),
{
    let usrdir = match srv.usrdir {
        Some(b) => b,
        None => false,
    };
    if text::starts_with_str(u.path.as_str(), "/~") && usrdir {
        proof {
            reveal_strlit("/~");
        }
        let rest = paths::trim_prefix_rep(u.path.as_str(), "/~");
        let (name, after) = text::split_once_char(rest.as_str(), '/');
        match after {
            None => {
                let mut p = name;
                p.append("/public_gemini/");
                paths::path_join("/home/", p.as_str())
            },
            Some(a) => {
                let decoded = util::url_decode(a.as_str().as_bytes());
                let mut p = name;
                p.append("/public_gemini/");
                p.append(decoded.as_str());
                proof {
                    assert(p@ =~= rest@.take(text::spec_find_char(rest@, '/'))
                        + "/public_gemini/"@ + decoded@);
                }
                paths::path_join("/home/", p.as_str())
            },
        }
    } else {
        let trimmed = text::trim_start_char(u.path.as_str(), '/');
        let decoded = util::url_decode(trimmed.as_str().as_bytes());
        paths::path_join(srv.dir.as_str(), decoded.as_str())
    }
}

/// The first routing decision, before any filesystem access, in fixed
/// precedence order: the redirect table, the whole-host passthrough proxy,
/// the path-segment proxy map, the gateway-backend map, and last the
/// filesystem.
pub enum EarlyRoute {
    Redirect(String),
    ProxyAll(String),
    ProxySegment(String),
    ScgiBackend(String),
    Fs(String),
}

/// Routes a validated request as far as the configured tables decide,
/// in the fixed precedence order.
pub fn route_early(srv: &Server, u: &GemUrl) -> (r: EarlyRoute)
    requires
        srv.wf(),
    ensures
        spec_redirect_target(*srv, u@.path) is Some ==> r is Redirect && r->Redirect_0@
            == spec_redirect_target(*srv, u@.path).unwrap(),
        spec_redirect_target(*srv, u@.path) is None && srv.proxy_all is Some ==> r is ProxyAll
            && r->ProxyAll_0@ == srv.proxy_all.unwrap()@,
        spec_redirect_target(*srv, u@.path) is None && srv.proxy_all is None
            && spec_proxy_upstream(*srv, u@.path) is Some ==> r is ProxySegment
            && r->ProxySegment_0@ == spec_proxy_upstream(*srv, u@.path).unwrap(),
        spec_redirect_target(*srv, u@.path) is None && srv.proxy_all is None
            && spec_proxy_upstream(*srv, u@.path) is None && spec_scgi_backend(*srv, u@.path)
            is Some ==> r is ScgiBackend && r->ScgiBackend_0@ == spec_scgi_backend(
            *srv,
            u@.path,
        ).unwrap(),
        spec_redirect_target(*srv, u@.path) is None && srv.proxy_all is None
            && spec_proxy_upstream(*srv, u@.path) is None && spec_scgi_backend(*srv, u@.path)
            is None ==> r is Fs && r->Fs_0@ == spec_fs_path(*srv, u@.path),
{
    match &srv.redirect {
        Some(m) => {
            let key = table_key(u.path.as_str());
            match m.get(key.as_str()) {
                Some(t) => {
                    return EarlyRoute::Redirect(t.clone());
                },
                None => {},
            }
        },
        None => {},
    }
    match &srv.proxy_all {
        Some(p) => {
            return EarlyRoute::ProxyAll(p.clone());
        },
        None => {},
    }
    match &srv.proxy {
        Some(m) => {
            if text::starts_with_char(u.path.as_str(), '/') {
                let n = u.path.as_str().unicode_len();
                let tail = String::from_str(u.path.as_str().substring_char(1, n));
                proof {
                    assert(u.path@.subrange(1, n as int) =~= u.path@.skip(1));
                }
                let segs = text::split_char(tail.as_str(), '/');
                match m.get(segs[0].as_str()) {
                    Some(t) => {
                        return EarlyRoute::ProxySegment(t.clone());
                    },
                    None => {},
                }
            }
        },
        None => {},
    }
    match &srv.scgi {
        Some(m) => {
            let key = table_key(u.path.as_str());
            match m.get(key.as_str()) {
                Some(t) => {
                    return EarlyRoute::ScgiBackend(t.clone());
                },
                None => {},
            }
        },
        None => {},
    }
    EarlyRoute::Fs(fs_path(srv, u))
}

/// The configured index filename, or the fixed default.
pub open spec fn spec_index_name(srv: Server) -> Seq<char> {
    match srv.index {
        Some(i) => i@,
        None => "index.gemini"@,
    }
}

/// The path of the index file inside a directory.
pub fn index_path(srv: &Server, dir_path: &str) -> (r: String)
    ensures
        r@ == paths::spec_path_join(dir_path@, spec_index_name(*srv)),
{
    match &srv.index {
        Some(i) => paths::path_join(dir_path, i.as_str()),
        None => paths::path_join(dir_path, "index.gemini"),
    }
}

/// How filesystem serving proceeds once the target and, for a directory, its
/// index file have been examined.
pub ghost enum SpecFsStep {
    RedirectSlash,
    UseIndex,
    Listing,
    FileTarget,
    Walk,
}

/// The decision: a missing target goes to gateway ancestor discovery; a
/// directory without a trailing separator in the request path is redirected
/// permanently; a directory with a readable index file serves that file; any
/// other directory is listed; a plain file is the target itself.
pub open spec fn spec_route_fs(upath: Seq<char>, target: FileMeta, index: FileMeta) -> SpecFsStep {
    if target.kind == FileKind::Missing {
        SpecFsStep::Walk
    } else if target.kind == FileKind::Dir {
        if !(upath.len() > 0 && upath.last() == '/') {
            SpecFsStep::RedirectSlash
        } else if index.kind != FileKind::Missing && spec_world_readable(index.mode) {
            SpecFsStep::UseIndex
        } else {
            SpecFsStep::Listing
        }
    } else {
        SpecFsStep::FileTarget
    }
}

/// The executable form of the filesystem step; the redirect carries the
/// slash-appended URL to answer with.
pub enum FsStep {
    RedirectSlash(String),
    UseIndex,
    Listing,
    FileTarget,
    Walk,
}

impl FsStep {
    pub open spec fn kind(self) -> SpecFsStep {
        match self {
            FsStep::RedirectSlash(_) => SpecFsStep::RedirectSlash,
            FsStep::UseIndex => SpecFsStep::UseIndex,
            FsStep::Listing => SpecFsStep::Listing,
            FsStep::FileTarget => SpecFsStep::FileTarget,
            FsStep::Walk => SpecFsStep::Walk,
        }
    }
}

/// Decides how filesystem serving proceeds, as `spec_route_fs` describes.
/// `index` is the stat of the index file inside the target directory and is
/// ignored unless the target is a directory.
pub fn route_fs(u: &GemUrl, target: FileMeta, index: FileMeta) -> (r: FsStep)
    ensures
        r.kind() == spec_route_fs(u@.path, target, index),
        r matches FsStep::RedirectSlash(m) ==> m@ == spec_url_chars(u@) + "/"@,
{
    match target.kind {
        FileKind::Missing => FsStep::Walk,
        FileKind::Dir => {
            if !text::ends_with_char(u.path.as_str(), '/') {
                let mut m = crate::request::url_string(u);
                m.append("/");
                FsStep::RedirectSlash(m)
            } else if index.kind != FileKind::Missing && world_readable(index.mode) {
                FsStep::UseIndex
            } else {
                FsStep::Listing
            }
        },
        FileKind::File => FsStep::FileTarget,
    }
}

/// How a final target is answered once gateway dispatch has declined it.
pub ghost enum SpecServe {
    Refuse,
    ServeFile,
    ServeListing,
}

/// The decision: an executable file is never served as content, an
/// unreadable target is never served in full or part — both are refused as
/// not found — a readable file is served, and a readable directory is
/// listed.
pub open spec fn spec_serve_kind(target: FileMeta) -> SpecServe {
    if target.kind == FileKind::File && spec_any_exec(target.mode) {
        SpecServe::Refuse
    } else if !spec_world_readable(target.mode) {
        SpecServe::Refuse
    } else if target.kind == FileKind::File {
        SpecServe::ServeFile
    } else {
        SpecServe::ServeListing
    }
}

/// The executable form of the serving step, carrying the refusal status or
/// the media type to answer with.
pub enum ServeStep {
    Refuse(Status),
    ServeFile(String),
    ServeListing(String),
}

impl ServeStep {
    pub open spec fn kind(self) -> SpecServe {
        match self {
            ServeStep::Refuse(_) => SpecServe::Refuse,
            ServeStep::ServeFile(_) => SpecServe::ServeFile,
            ServeStep::ServeListing(_) => SpecServe::ServeListing,
        }
    }
}

/// Decides how the final target is answered, as `spec_serve_kind` describes;
/// the media type comes from the path's extension, with the configured
/// language parameter on served text.
pub fn serve_decision(srv: &Server, path: &str, target: FileMeta) -> (r: ServeStep)
    requires
        target.kind != FileKind::Missing,
    ensures
        r.kind() == spec_serve_kind(target),
        r matches ServeStep::Refuse(s) ==> s == Status::NotFound,
        r matches ServeStep::ServeFile(m) ==> m@ == mime::spec_mime_with_lang(
            mime::spec_mime(false, path@),
            spec_opt_chars(srv.lang),
        ),
        r matches ServeStep::ServeListing(m) ==> m@ == mime::spec_mime(true, path@),
{
    let is_file = match target.kind {
        FileKind::File => true,
        _ => false,
    };
    if is_file && any_exec(target.mode) {
        return ServeStep::Refuse(Status::NotFound);
    }
    if !world_readable(target.mode) {
        return ServeStep::Refuse(Status::NotFound);
    }
    if is_file {
        let m = mime::get_mime(false, path);
        ServeStep::ServeFile(mime::mime_with_lang(m, &srv.lang))
    } else {
        ServeStep::ServeListing(mime::get_mime(true, path))
    }
}

/// A file with any execute permission bit set that gateway dispatch has
/// declined is never served as content: the serving step refuses it, and the
/// refusal status is the not-found status.
pub proof fn lemma_executable_never_served(target: FileMeta)
    requires
        target.kind == FileKind::File,
        spec_any_exec(target.mode),
    ensures
        spec_serve_kind(target) is Refuse,
{
}

/// A target lacking world-read permission is never served, in full or in
/// part: the serving step refuses it, and the refusal status is the
/// not-found status.
pub proof fn lemma_unreadable_never_served(target: FileMeta)
    requires
        !spec_world_readable(target.mode),
    ensures
        spec_serve_kind(target) is Refuse,
{
}

/// The slash redirect is idempotent: a directory reached again at the
/// slash-appended URL is no longer redirected.
pub proof fn lemma_slash_redirect_idempotent(
    upath: Seq<char>,
    target: FileMeta,
    index: FileMeta,
    target2: FileMeta,
    index2: FileMeta,
)
    requires
        spec_route_fs(upath, target, index) is RedirectSlash,
        target2.kind == FileKind::Dir,
    ensures
        !(spec_route_fs(upath + "/"@, target2, index2) is RedirectSlash),
{
    reveal_strlit("/");
    assert((upath + "/"@).last() == '/');
}

} // verus!

