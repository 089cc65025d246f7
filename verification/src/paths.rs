use vstd::prelude::*;
use vstd::string::*;

use crate::text;

verus! {

/// The crate's model of filesystem paths: plain strings whose components are
/// separated by `/`. The operations mirror how std's path buffers combine and
/// shorten paths.
/// A path is absolute when it starts with the separator.
pub open spec fn spec_is_abs(p: Seq<char>) -> bool {
    p.len() > 0 && p[0] == '/'
}

/// Appending `rel` to `base`: an absolute `rel` replaces `base`; otherwise a
/// separator is put between them unless `base` already ends in one.
pub open spec fn spec_path_join(base: Seq<char>, rel: Seq<char>) -> Seq<char> {
    if spec_is_abs(rel) {
        rel
    } else if base.len() == 0 {
        rel
    } else if base.last() == '/' {
        base + rel
    } else {
        base + seq!['/'] + rel
    }
}

/// Joins two paths as `spec_path_join` describes.
pub fn path_join(base: &str, rel: &str) -> (r: String)
    ensures
        r@ == spec_path_join(base@, rel@),
{
    if text::starts_with_char(rel, '/') {
        String::from_str(rel)
    } else if base.unicode_len() == 0 {
        String::from_str(rel)
    } else {
        let mut r = String::from_str(base);
        if !text::ends_with_char(base, '/') {
            r.append("/");
            proof {
                reveal_strlit("/");
                assert(r@ =~= base@ + seq!['/']);
            }
        }
        r.append(rel);
        proof {
            if base@.last() != '/' {
                assert(r@ =~= base@ + seq!['/'] + rel@);
            }
        }
        r
    }
}

/// The position of the last occurrence of `c` in `s`, or -1 when `c` does not
/// occur.
pub open spec fn spec_find_last_char(s: Seq<char>, c: char) -> int
    decreases s.len(),
{
    if s.len() == 0 {
        -1
    } else if s.last() == c {
        s.len() - 1
    } else {
        spec_find_last_char(s.drop_last(), c)
    }
}

pub fn find_last_char(s: &str, c: char) -> (r: Option<usize>)
    ensures
        r matches Some(i) ==> spec_find_last_char(s@, c) == i as int,
        r is None ==> spec_find_last_char(s@, c) == -1,
{
    let n = s.unicode_len();
    let mut i = n;
    proof {
        assert(s@.take(n as int) =~= s@);
    }
    while i > 0
        invariant
            i <= n == s@.len(),
            spec_find_last_char(s@, c) == spec_find_last_char(s@.take(i as int), c),
        decreases i,
    {
        proof {
            assert(s@.take(i as int).last() == s@[i - 1]);
            assert(s@.take(i as int).drop_last() =~= s@.take(i - 1));
        }
        if s.get_char(i - 1) == c {
            return Some(i - 1);
        }
        i = i - 1;
    }
    None
}

/// The parent of a path: the path without its final component, the unchanged
/// path when it consists of separators alone, the root when only the root is
/// left, and the empty path for a single relative component.
pub open spec fn spec_parent(p: Seq<char>) -> Seq<char> {
    let t = text::spec_trim_end_char(p, '/');
    if t.len() == 0 {
        p
    } else {
        let j = spec_find_last_char(t, '/');
        if j < 0 {
            Seq::empty()
        } else {
            let u = text::spec_trim_end_char(t.take(j + 1), '/');
            if u.len() == 0 {
                seq!['/']
            } else {
                u
            }
        }
    }
}

/// Shortens a path to its parent, as `spec_parent` describes.
pub fn parent_of(p: &str) -> (r: String)
    ensures
        r@ == spec_parent(p@),
{
    let t = text::trim_end_char(p, '/');
    if t.as_str().unicode_len() == 0 {
        return String::from_str(p);
    }
    match find_last_char(t.as_str(), '/') {
        None => {
            proof {
                reveal_strlit("");
            }
            let r = String::from_str("");
            proof {
                assert(r@ =~= Seq::<char>::empty());
            }
            r
        },
        Some(j) => {
            proof {
                lemma_find_last_in_range(t@, '/');
            }
            let u = text::trim_end_char(t.as_str().substring_char(0, j + 1), '/');
            proof {
                assert(t@.subrange(0, j + 1) =~= t@.take(j + 1));
            }
            if u.as_str().unicode_len() == 0 {
                let r = String::from_str("/");
                proof {
                    reveal_strlit("/");
                    assert(r@ =~= seq!['/']);
                }
                r
            } else {
                u
            }
        },
    }
}

proof fn lemma_find_last_in_range(s: Seq<char>, c: char)
    ensures
        -1 <= spec_find_last_char(s, c) < s.len(),
    decreases s.len(),
{
    if s.len() > 0 && s.last() != c {
        lemma_find_last_in_range(s.drop_last(), c);
    }
}

/// The final slash-separated component of a path.
pub open spec fn spec_last_component(p: Seq<char>) -> Seq<char> {
    let j = spec_find_last_char(p, '/');
    if j < 0 {
        p
    } else {
        p.skip(j + 1)
    }
}

pub fn last_component(p: &str) -> (r: String)
    ensures
        r@ == spec_last_component(p@),
{
    let n = p.unicode_len();
    match find_last_char(p, '/') {
        None => String::from_str(p),
        Some(j) => {
            proof {
                lemma_find_last_in_range(p@, '/');
            }
            let r = String::from_str(p.substring_char(j + 1, n));
            proof {
                assert(p@.subrange(j + 1, n as int) =~= p@.skip(j + 1));
            }
            r
        },
    }
}

/// The extension of a path: the part of its final component after the last
/// dot, provided that dot is not the component's first character.
pub open spec fn spec_extension(p: Seq<char>) -> Option<Seq<char>> {
    let f = spec_last_component(p);
    let k = spec_find_last_char(f, '.');
    if k <= 0 {
        None
    } else {
        Some(f.skip(k + 1))
    }
}

pub fn extension_of(p: &str) -> (r: Option<String>)
    ensures
        r is Some <==> spec_extension(p@) is Some,
        r matches Some(e) ==> spec_extension(p@) == Some(e@),
{
    let f = last_component(p);
    let m = f.as_str().unicode_len();
    match find_last_char(f.as_str(), '.') {
        None => None,
        Some(k) => {
            proof {
                lemma_find_last_in_range(f@, '.');
            }
            if k == 0 {
                None
            } else {
                let e = String::from_str(f.as_str().substring_char(k + 1, m));
                proof {
                    assert(f@.subrange(k + 1, m as int) =~= f@.skip(k + 1));
                }
                Some(e)
            }
        },
    }
}

/// The nonempty slash-separated components of a path.
pub open spec fn spec_components(p: Seq<char>) -> Seq<Seq<char>> {
    text::spec_split_char(p, '/').filter(|x: Seq<char>| x.len() > 0)
}

/// Lists the nonempty slash-separated components of a path.
pub fn components_of(p: &str) -> (r: Vec<String>)
    ensures
        text::strs_view(r@) == spec_components(p@),
{
    let pieces = text::split_char(p, '/');
    let ghost all = text::strs_view(pieces@);
    let mut r: Vec<String> = Vec::new();
    let n = pieces.len();
    proof {
        reveal(Seq::filter);
        assert(all.subrange(0, 0) =~= Seq::<Seq<char>>::empty());
        assert(text::strs_view(r@) =~= all.subrange(0, 0).filter(|x: Seq<char>| x.len() > 0));
    }
    for i in 0..n
        invariant
            n == pieces@.len(),
            all == text::strs_view(pieces@),
            text::strs_view(r@) == all.subrange(0, i as int).filter(|x: Seq<char>| x.len() > 0),
    {
        let ghost prev = text::strs_view(r@);
        if pieces[i].as_str().unicode_len() > 0 {
            let piece = String::from_str(pieces[i].as_str());
            r.push(piece);
            proof {
                assert(text::strs_view(r@) =~= prev.push(all[i as int]));
            }
        }
        proof {
            reveal(Seq::filter);
            assert(all.subrange(0, i + 1).drop_last() =~= all.subrange(0, i as int));
            assert(all.subrange(0, i + 1).last() == all[i as int]);
            assert(text::strs_view(r@) =~= all.subrange(0, i + 1).filter(
                |x: Seq<char>| x.len() > 0,
            ));
        }
    }
    proof {
        assert(all.subrange(0, n as int) =~= all);
    }
    r
}

/// One path lies under another when both are absolute or both relative and
/// the second's components lead the first's.
pub open spec fn spec_path_starts_with(p: Seq<char>, q: Seq<char>) -> bool {
    spec_is_abs(p) == spec_is_abs(q) && spec_components(q).is_prefix_of(spec_components(p))
}

/// Component-wise prefix test between paths, as `spec_path_starts_with`
/// describes.
pub fn path_starts_with(p: &str, q: &str) -> (r: bool)
    ensures
        r == spec_path_starts_with(p@, q@),
{
    let pa = text::starts_with_char(p, '/');
    let qa = text::starts_with_char(q, '/');
    if pa != qa {
        return false;
    }
    let pc = components_of(p);
    let qc = components_of(q);
    if qc.len() > pc.len() {
        return false;
    }
    let m = qc.len();
    for i in 0..m
        invariant
            m == qc@.len() <= pc@.len(),
            text::strs_view(pc@) == spec_components(p@),
            text::strs_view(qc@) == spec_components(q@),
            forall|j: int| 0 <= j < i ==> spec_components(q@)[j] == spec_components(p@)[j],
    {
        if !text::str_eq(pc[i].as_str(), qc[i].as_str()) {
            proof {
                assert(spec_components(q@)[i as int] != spec_components(p@)[i as int]);
            }
            return false;
        }
    }
    proof {
        assert(spec_components(q@) =~= spec_components(p@).subrange(
            0,
            spec_components(q@).len() as int,
        ));
    }
    true
}

/// Repeatedly removes the prefix `pre` from the front of `s`.
pub open spec fn spec_trim_prefix_rep(s: Seq<char>, pre: Seq<char>) -> Seq<char>
    decreases s.len(),
{
    if pre.len() > 0 && pre.is_prefix_of(s) {
        spec_trim_prefix_rep(s.skip(pre.len() as int), pre)
    } else {
        s
    }
}

pub fn trim_prefix_rep(s: &str, pre: &str) -> (r: String)
    requires
        pre@.len() > 0,
    ensures
        r@ == spec_trim_prefix_rep(s@, pre@),
    decreases s@.len(),
{
    let n = s.unicode_len();
    let m = pre.unicode_len();
    if text::starts_with_str(s, pre) {
        let rest = s.substring_char(m, n);
        proof {
            assert(s@.subrange(m as int, n as int) =~= s@.skip(m as int));
        }
        trim_prefix_rep(rest, pre)
    } else {
        String::from_str(s)
    }
}

} // verus!
