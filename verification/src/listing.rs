use vstd::prelude::*;
use vstd::seq_lib::*;
use vstd::string::*;

use crate::request::{spec_url_chars, GemUrl, UrlModel};
use crate::routing::spec_world_readable;
use crate::text;

verus! {

/// One directory entry as handed in by the caller: name, kind and
/// permission bits.
#[derive(Debug)]
pub struct DirEntry {
    pub name: String,
    pub is_dir: bool,
    pub mode: u32,
}

/// Mathematical model of a directory entry.
pub ghost struct EntryModel {
    pub name: Seq<char>,
    pub is_dir: bool,
    pub mode: u32,
}

impl View for DirEntry {
    type V = EntryModel;

    open spec fn view(&self) -> EntryModel {
        EntryModel { name: self.name@, is_dir: self.is_dir, mode: self.mode }
    }
}

/// Lexicographic order on character sequences by code point, the order in
/// which listing lines are emitted.
pub open spec fn lex_le(a: Seq<char>, b: Seq<char>) -> bool
    decreases a.len(),
{
    if a.len() == 0 {
        true
    } else if b.len() == 0 {
        false
    } else if a[0] == b[0] {
        lex_le(a.skip(1), b.skip(1))
    } else {
        (a[0] as u32) < (b[0] as u32)
    }
}

/// The lexicographic order is total.
pub proof fn lemma_lex_total(a: Seq<char>, b: Seq<char>)
    ensures
        lex_le(a, b) || lex_le(b, a),
    decreases a.len(),
{
    if a.len() > 0 && b.len() > 0 {
        if a[0] == b[0] {
            lemma_lex_total(a.skip(1), b.skip(1));
        } else {
            vstd::utf8::char_u32_cast(a[0], a[0] as u32);
            vstd::utf8::char_u32_cast(b[0], b[0] as u32);
            assert(a[0] as u32 != b[0] as u32);
        }
    }
}

/// The lexicographic order is transitive.
pub proof fn lemma_lex_trans(a: Seq<char>, b: Seq<char>, c: Seq<char>)
    requires
        lex_le(a, b),
        lex_le(b, c),
    ensures
        lex_le(a, c),
    decreases a.len(),
{
    if a.len() > 0 && b.len() > 0 && c.len() > 0 {
        if a[0] == b[0] && b[0] == c[0] {
            lemma_lex_trans(a.skip(1), b.skip(1), c.skip(1));
        }
    }
}

/// Every pair of lines is in order.
pub open spec fn spec_sorted(xs: Seq<Seq<char>>) -> bool {
    forall|i: int, j: int| 0 <= i < j < xs.len() ==> #[trigger] lex_le(xs[i], xs[j])
}

fn lex_le_str(a: &str, b: &str) -> (r: bool)
    ensures
        r == lex_le(a@, b@),
{
    let n = a.unicode_len();
    let m = b.unicode_len();
    let mut i: usize = 0;
    proof {
        assert(a@.skip(0) =~= a@);
        assert(b@.skip(0) =~= b@);
    }
    while i < n && i < m
        invariant
            i <= n == a@.len(),
            i <= m == b@.len(),
            lex_le(a@, b@) == lex_le(a@.skip(i as int), b@.skip(i as int)),
        decreases n - i,
    {
        let ca = a.get_char(i);
        let cb = b.get_char(i);
        proof {
            assert(a@.skip(i as int)[0] == a@[i as int]);
            assert(b@.skip(i as int)[0] == b@[i as int]);
            assert(a@.skip(i as int).skip(1) =~= a@.skip(i + 1));
            assert(b@.skip(i as int).skip(1) =~= b@.skip(i + 1));
        }
        if ca != cb {
            return (ca as u32) < (cb as u32);
        }
        i = i + 1;
    }
    n <= m
}

/// One listing line for a subdirectory: a link to the entry under the
/// request URL, both the link and the display name slash-suffixed.
pub open spec fn spec_dir_line(u: UrlModel, name: Seq<char>) -> Seq<char> {
    "=> "@ + spec_url_chars(u) + name + "/ "@ + name + "/\r\n"@
}

/// One listing line for a file.
pub open spec fn spec_file_line(u: UrlModel, name: Seq<char>) -> Seq<char> {
    "=> "@ + spec_url_chars(u) + name + " "@ + name + "\r\n"@
}

/// Entries shown as subdirectories: world-readable directories.
pub open spec fn spec_dir_pred() -> spec_fn(DirEntry) -> bool {
    |e: DirEntry| spec_world_readable(e.mode) && e.is_dir
}

/// Entries shown as files: world-readable non-directories.
pub open spec fn spec_file_pred() -> spec_fn(DirEntry) -> bool {
    |e: DirEntry| spec_world_readable(e.mode) && !e.is_dir
}

pub open spec fn spec_dir_line_fn(u: UrlModel) -> spec_fn(DirEntry) -> Seq<char> {
    |e: DirEntry| spec_dir_line(u, e.name@)
}

pub open spec fn spec_file_line_fn(u: UrlModel) -> spec_fn(DirEntry) -> Seq<char> {
    |e: DirEntry| spec_file_line(u, e.name@)
}

/// The lines of the world-readable subdirectories, in entry order.
pub open spec fn spec_dir_lines(u: UrlModel, es: Seq<DirEntry>) -> Seq<Seq<char>> {
    es.filter(spec_dir_pred()).map_values(spec_dir_line_fn(u))
}

/// The lines of the world-readable files, in entry order.
pub open spec fn spec_file_lines(u: UrlModel, es: Seq<DirEntry>) -> Seq<Seq<char>> {
    es.filter(spec_file_pred()).map_values(spec_file_line_fn(u))
}

/// The listing's heading: a title and the request path.
pub open spec fn spec_listing_header(u: UrlModel) -> Seq<char> {
    "# Directory Listing\r\n\r\n"@ + "Path: "@ + u.path + "\r\n\r\n"@
}

/// The concatenation of a sequence of lines.
pub open spec fn spec_concat(xs: Seq<Seq<char>>) -> Seq<char>
    decreases xs.len(),
{
    if xs.len() == 0 {
        Seq::empty()
    } else {
        spec_concat(xs.drop_last()) + xs.last()
    }
}

proof fn lemma_insert_to_multiset(s: Seq<Seq<char>>, p: int, x: Seq<char>)
    requires
        0 <= p <= s.len(),
    ensures
        s.insert(p, x).to_multiset() =~= s.to_multiset().insert(x),
{
    let s2 = s.insert(p, x);
    s2.to_multiset_ensures();
    s.to_multiset_ensures();
    assert(s2.remove(p) =~= s);
    assert(s2[p] == x);
    assert(s2.remove(p).to_multiset() =~= s2.to_multiset().remove(s2[p]));
    assert(s2.contains(x));
    assert(s2.to_multiset().count(x) > 0);
    assert forall|a: Seq<char>|
        #[trigger] s2.to_multiset().count(a) == s.to_multiset().insert(x).count(a) by {
        if a == x {
            assert(s.to_multiset().count(a) == s2.to_multiset().remove(x).count(a));
        } else {
            assert(s.to_multiset().count(a) == s2.to_multiset().remove(x).count(a));
        }
    }
}

fn sort_lines(v: Vec<String>) -> (r: Vec<String>)
    ensures
        text::strs_view(r@).to_multiset() == text::strs_view(v@).to_multiset(),
        spec_sorted(text::strs_view(r@)),
{
    let mut r: Vec<String> = Vec::new();
    let n = v.len();
    proof {
        text::strs_view(v@).to_multiset_ensures();
        assert(text::strs_view(r@) =~= Seq::<Seq<char>>::empty());
        assert(text::strs_view(v@.subrange(0, 0)) =~= Seq::<Seq<char>>::empty());
        assert(text::strs_view(r@).to_multiset() =~= text::strs_view(
            v@.subrange(0, 0),
        ).to_multiset());
    }
    for i in 0..n
        invariant
            n == v@.len(),
            text::strs_view(r@).to_multiset() == text::strs_view(
                v@.subrange(0, i as int),
            ).to_multiset(),
            spec_sorted(text::strs_view(r@)),
    {
        let x = v[i].clone();
        let mut p: usize = 0;
        let len = r.len();
        while p < len && lex_le_str(r[p].as_str(), x.as_str())
            invariant
                p <= len == r@.len(),
                x@ == v@[i as int]@,
                forall|j: int| 0 <= j < p ==> lex_le(#[trigger] text::strs_view(r@)[j], x@),
            decreases len - p,
        {
            p = p + 1;
        }
        proof {
            let rv = text::strs_view(r@);
            if p < len {
                assert(!lex_le(rv[p as int], x@));
                lemma_lex_total(rv[p as int], x@);
                assert forall|j: int| p <= j < rv.len() implies lex_le(x@, #[trigger] rv[j]) by {
                    if j > p {
                        assert(lex_le(rv[p as int], rv[j]));
                        lemma_lex_trans(x@, rv[p as int], rv[j]);
                    }
                }
            }
        }
        let ghost oldr = text::strs_view(r@);
        r.insert(p, x);
        proof {
            let rv = text::strs_view(r@);
            assert(rv =~= oldr.insert(p as int, v@[i as int]@));
            lemma_insert_to_multiset(oldr, p as int, v@[i as int]@);
            assert(text::strs_view(v@.subrange(0, i + 1)).drop_last() =~= text::strs_view(
                v@.subrange(0, i as int),
            ));
            assert(text::strs_view(v@.subrange(0, i + 1)) =~= text::strs_view(
                v@.subrange(0, i as int),
            ).push(v@[i as int]@));
            text::strs_view(v@.subrange(0, i as int)).to_multiset_ensures();
            assert(rv.to_multiset() =~= text::strs_view(v@.subrange(0, i + 1)).to_multiset());
            assert forall|a: int, b: int| 0 <= a < b < rv.len() implies #[trigger] lex_le(
                rv[a],
                rv[b],
            ) by {
                if b < p {
                    assert(lex_le(oldr[a], oldr[b]));
                } else if b == p {
                    assert(lex_le(oldr[a], v@[i as int]@));
                } else if a < p {
                    assert(lex_le(oldr[a], oldr[b - 1]));
                } else if a == p {
                    assert(lex_le(v@[i as int]@, oldr[b - 1]));
                } else {
                    assert(lex_le(oldr[a - 1], oldr[b - 1]));
                }
            }
        }
    }
    proof {
        assert(v@.subrange(0, n as int) =~= v@);
        assert(text::strs_view(v@.subrange(0, n as int)) =~= text::strs_view(v@));
    }
    r
}

fn build_line(u: &GemUrl, name: &str, is_dir: bool) -> (r: String)
    ensures
        is_dir ==> r@ == spec_dir_line(u@, name@),
        !is_dir ==> r@ == spec_file_line(u@, name@),
{
    let mut r = String::from_str("=> ");
    r.append(crate::request::url_string(u).as_str());
    r.append(name);
    if is_dir {
        r.append("/ ");
        r.append(name);
        r.append("/\r\n");
        proof {
            assert(r@ =~= spec_dir_line(u@, name@));
        }
    } else {
        r.append(" ");
        r.append(name);
        r.append("\r\n");
        proof {
            assert(r@ =~= spec_file_line(u@, name@));
        }
    }
    r
}

/// Renders the listing of a directory: a heading with the request path, then
/// one link line per world-readable entry — subdirectories first, each group
/// in lexicographic order; entries without world-read permission are left
/// out.
pub fn gen_dir_list(u: &GemUrl, entries: &Vec<DirEntry>) -> (r: String)
    ensures
        ({
            let dl = spec_dir_lines(u@, entries@);
            let fl = spec_file_lines(u@, entries@);
            exists|sd: Seq<Seq<char>>, sf: Seq<Seq<char>>|
                {
                    &&& (#[trigger] sd.to_multiset()) == dl.to_multiset()
                    &&& (#[trigger] sf.to_multiset()) == fl.to_multiset()
                    &&& spec_sorted(sd)
                    &&& spec_sorted(sf)
                    &&& r@ == spec_listing_header(u@) + spec_concat(sd) + spec_concat(sf)
                }
        }),
{
    let mut dirs: Vec<String> = Vec::new();
    let mut files: Vec<String> = Vec::new();
    let n = entries.len();
    proof {
        reveal(Seq::filter);
        assert(entries@.subrange(0, 0) =~= Seq::<DirEntry>::empty());
        assert(text::strs_view(dirs@) =~= spec_dir_lines(u@, entries@.subrange(0, 0)));
        assert(text::strs_view(files@) =~= spec_file_lines(u@, entries@.subrange(0, 0)));
    }
    for i in 0..n
        invariant
            n == entries@.len(),
            text::strs_view(dirs@) == spec_dir_lines(u@, entries@.subrange(0, i as int)),
            text::strs_view(files@) == spec_file_lines(u@, entries@.subrange(0, i as int)),
    {
        let e = &entries[i];
        let ghost prevd = text::strs_view(dirs@);
        let ghost prevf = text::strs_view(files@);
        let ghost ent = entries@[i as int];
        let ghost sub = entries@.subrange(0, i as int);
        let ghost t1 = entries@.subrange(0, i + 1);
        proof {
            reveal(Seq::filter);
            assert(t1.drop_last() =~= sub);
            assert(t1.last() == ent);
            assert(spec_dir_pred()(ent) == (spec_world_readable(ent.mode) && ent.is_dir));
            assert(spec_file_pred()(ent) == (spec_world_readable(ent.mode) && !ent.is_dir));
        }
        if crate::routing::world_readable(e.mode) {
            let line = build_line(u, e.name.as_str(), e.is_dir);
            if e.is_dir {
                dirs.push(line);
                proof {
                    reveal(Seq::filter);
                    assert(t1.filter(spec_dir_pred()) =~= sub.filter(spec_dir_pred()).push(ent));
                    assert(t1.filter(spec_file_pred()) =~= sub.filter(spec_file_pred()));
                    assert(spec_dir_line_fn(u@)(ent) == spec_dir_line(u@, ent.name@));
                    assert(spec_dir_lines(u@, t1) =~= spec_dir_lines(u@, sub).push(
                        spec_dir_line(u@, ent.name@),
                    ));
                    assert(text::strs_view(dirs@) =~= prevd.push(spec_dir_line(u@, ent.name@)));
                    assert(spec_file_lines(u@, t1) =~= spec_file_lines(u@, sub));
                }
            } else {
                files.push(line);
                proof {
                    reveal(Seq::filter);
                    assert(t1.filter(spec_file_pred()) =~= sub.filter(spec_file_pred()).push(ent));
                    assert(t1.filter(spec_dir_pred()) =~= sub.filter(spec_dir_pred()));
                    assert(spec_file_line_fn(u@)(ent) == spec_file_line(u@, ent.name@));
                    assert(spec_file_lines(u@, t1) =~= spec_file_lines(u@, sub).push(
                        spec_file_line(u@, ent.name@),
                    ));
                    assert(text::strs_view(files@) =~= prevf.push(spec_file_line(u@, ent.name@)));
                    assert(spec_dir_lines(u@, t1) =~= spec_dir_lines(u@, sub));
                }
            }
        } else {
            proof {
                reveal(Seq::filter);
                assert(t1.filter(spec_dir_pred()) =~= sub.filter(spec_dir_pred()));
                assert(t1.filter(spec_file_pred()) =~= sub.filter(spec_file_pred()));
            }
        }
        proof {
            assert(text::strs_view(dirs@) =~= spec_dir_lines(u@, t1));
            assert(text::strs_view(files@) =~= spec_file_lines(u@, t1));
        }
    }
    proof {
        assert(entries@.subrange(0, n as int) =~= entries@);
    }
    let sorted_dirs = sort_lines(dirs);
    let sorted_files = sort_lines(files);
    let mut r = String::from_str("# Directory Listing\r\n\r\n");
    r.append("Path: ");
    r.append(u.path.as_str());
    r.append("\r\n\r\n");
    proof {
        assert(r@ =~= spec_listing_header(u@));
    }
    let ghost header = r@;
    let dn = sorted_dirs.len();
    proof {
        assert(text::strs_view(sorted_dirs@).subrange(0, 0) =~= Seq::<Seq<char>>::empty());
    }
    for i in 0..dn
        invariant
            dn == sorted_dirs@.len(),
            r@ == header + spec_concat(text::strs_view(sorted_dirs@).subrange(0, i as int)),
    {
        r.append(sorted_dirs[i].as_str());
        proof {
            let sv = text::strs_view(sorted_dirs@);
            assert(sv.subrange(0, i + 1).drop_last() =~= sv.subrange(0, i as int));
            assert(sv.subrange(0, i + 1).last() == sv[i as int]);
        }
    }
    proof {
        let sv = text::strs_view(sorted_dirs@);
        assert(sv.subrange(0, dn as int) =~= sv);
    }
    let ghost mid = r@;
    let fnn = sorted_files.len();
    proof {
        assert(text::strs_view(sorted_files@).subrange(0, 0) =~= Seq::<Seq<char>>::empty());
    }
    for i in 0..fnn
        invariant
            fnn == sorted_files@.len(),
            r@ == mid + spec_concat(text::strs_view(sorted_files@).subrange(0, i as int)),
    {
        r.append(sorted_files[i].as_str());
        proof {
            let sv = text::strs_view(sorted_files@);
            assert(sv.subrange(0, i + 1).drop_last() =~= sv.subrange(0, i as int));
            assert(sv.subrange(0, i + 1).last() == sv[i as int]);
        }
    }
    proof {
        let sv = text::strs_view(sorted_files@);
        assert(sv.subrange(0, fnn as int) =~= sv);
        let sd = text::strs_view(sorted_dirs@);
        let sf = text::strs_view(sorted_files@);
        assert(r@ == header + spec_concat(sd) + spec_concat(sf));
        assert(sd.to_multiset() == spec_dir_lines(u@, entries@).to_multiset());
        assert(sf.to_multiset() == spec_file_lines(u@, entries@).to_multiset());
    }
    r
}

} // verus!
