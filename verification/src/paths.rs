//! Unix paths as texts.

use vstd::prelude::*;

use crate::text::{chars_of, opt_text, text_of};

verus! {

/// `rel` under `base`: an absolute `rel` stands for itself.
pub open spec fn join_path(base: Seq<char>, rel: Seq<char>) -> Seq<char> {
    if rel.len() > 0 && rel[0] == '/' {
        rel
    } else if base.len() > 0 && base.last() != '/' {
        base.push('/') + rel
    } else {
        base + rel
    }
}

/// Joins two paths.
pub fn path_join(base: &str, rel: &str) -> (r: String)
    ensures
        r@ == join_path(base@, rel@),
{
    let b = chars_of(base);
    let v = chars_of(rel);
    let mut out = String::new();
    if v.len() > 0 && v[0] == '/' {
        out.append(rel);
        assert(out@ =~= rel@);
        return out;
    }
    out.append(base);
    if b.len() > 0 && b[b.len() - 1] != '/' {
        out.push('/');
        out.append(rel);
        assert(out@ =~= base@.push('/') + rel@);
    } else {
        out.append(rel);
        assert(out@ =~= base@ + rel@);
    }
    out
}

/// The part of `p` behind its last slash.
pub open spec fn last_segment(p: Seq<char>) -> Seq<char>
    decreases p.len(),
{
    if p.len() == 0 || p.last() == '/' {
        seq![]
    } else {
        last_segment(p.drop_last()).push(p.last())
    }
}

/// The name of the file or directory that `p` ends in. Slashes and `.` at the
/// end say nothing; a path that ends in `..` has no name.
pub open spec fn file_name(p: Seq<char>) -> Option<Seq<char>>
    decreases p.len(),
{
    if p.len() == 0 {
        None
    } else if p.last() == '/' {
        file_name(p.drop_last())
    } else if last_segment(p) == seq!['.'] {
        file_name(p.drop_last())
    } else if last_segment(p) == seq!['.', '.'] {
        None
    } else {
        Some(last_segment(p))
    }
}

/// The position of the last dot of `s`, or -1.
pub open spec fn last_dot(s: Seq<char>) -> int
    decreases s.len(),
{
    if s.len() == 0 {
        -1
    } else if s.last() == '.' {
        s.len() - 1
    } else {
        last_dot(s.drop_last())
    }
}

/// The file name of `p` before its extension.
pub open spec fn file_stem(p: Seq<char>) -> Option<Seq<char>> {
    match file_name(p) {
        Some(n) => if last_dot(n) > 0 {
            Some(n.take(last_dot(n)))
        } else {
            Some(n)
        },
        None => None,
    }
}

/// What stands behind the last dot of the file name of `p`; a dot in front makes no extension.
pub open spec fn extension(p: Seq<char>) -> Option<Seq<char>> {
    match file_name(p) {
        Some(n) => if last_dot(n) > 0 {
            Some(n.skip(last_dot(n) + 1))
        } else {
            None
        },
        None => None,
    }
}

proof fn lemma_last_segment(p: Seq<char>, from: int)
    requires
        0 <= from <= p.len(),
        from == 0 || p[from - 1] == '/',
        forall|j: int| from <= j < p.len() ==> p[j] != '/',
    ensures
        last_segment(p) == p.skip(from),
    decreases p.len(),
{
    if p.len() == from {
        assert(p.skip(from) =~= seq![]);
    } else {
        lemma_last_segment(p.drop_last(), from);
        assert(p.skip(from) =~= p.drop_last().skip(from).push(p.last()));
    }
}

/// The bounds of the file name in `v`.
fn name_bounds(v: &Vec<char>) -> (r: Option<(usize, usize)>)
    ensures
        match r {
            Some(b) => b.0 <= b.1 <= v.len() && file_name(v@) == Some(
                v@.subrange(b.0 as int, b.1 as int),
            ),
            None => file_name(v@) is None,
        },
{
    let mut end: usize = v.len();
    assert(v@.take(end as int) =~= v@);
    while end > 0
        invariant
            end <= v.len(),
            file_name(v@.take(end as int)) == file_name(v@),
        decreases end,
    {
        let ghost p = v@.take(end as int);
        assert(p.drop_last() =~= v@.take(end - 1));
        if v[end - 1] == '/' {
            end = end - 1;
        } else {
            let mut from: usize = end;
            while from > 0 && v[from - 1] != '/'
                invariant
                    from <= end <= v.len(),
                    forall|j: int| from <= j < end ==> v@[j] != '/',
                decreases from,
            {
                from = from - 1;
            }
            proof {
                lemma_last_segment(p, from as int);
                assert(p.skip(from as int) =~= v@.subrange(from as int, end as int));
            }
            let ghost seg = last_segment(p);
            if end - from == 1 && v[from] == '.' {
                assert(seg =~= seq!['.']);
                end = end - 1;
            } else if end - from == 2 && v[from] == '.' && v[from + 1] == '.' {
                assert(seg =~= seq!['.', '.']);
                assert(seg.len() == 2);
                return None;
            } else {
                assert(seg.len() == end - from);
                assert(seg != seq!['.']) by {
                    if seg == seq!['.'] {
                        assert(seg[0] == '.');
                    }
                }
                assert(seg != seq!['.', '.']) by {
                    if seg == seq!['.', '.'] {
                        assert(seg[0] == '.' && seg[1] == '.');
                    }
                }
                return Some((from, end));
            }
        }
    }
    None
}

/// The position of the last dot in `v[from..to]`, where it is not the first character.
fn dot_in(v: &Vec<char>, from: usize, to: usize) -> (r: Option<usize>)
    requires
        from <= to <= v.len(),
    ensures
        match r {
            Some(d) => from < d < to && last_dot(v@.subrange(from as int, to as int)) == d - from,
            None => last_dot(v@.subrange(from as int, to as int)) <= 0,
        },
{
    let mut i: usize = to;
    while i > from && v[i - 1] != '.'
        invariant
            from <= i <= to <= v.len(),
            last_dot(v@.subrange(from as int, i as int)) == last_dot(
                v@.subrange(from as int, to as int),
            ),
        decreases i,
    {
        assert(v@.subrange(from as int, i as int).drop_last() =~= v@.subrange(from as int, i - 1));
        i = i - 1;
    }
    if i > from && i - 1 > from {
        Some(i - 1)
    } else {
        None
    }
}

/// The file name of `path` before its extension.
pub fn stem_of(path: &str) -> (r: Option<String>)
    ensures
        opt_text(r) == file_stem(path@),
{
    let v = chars_of(path);
    match name_bounds(&v) {
        Some(b) => {
            let (from, to) = b;
            let ghost n = v@.subrange(from as int, to as int);
            match dot_in(&v, from, to) {
                Some(d) => {
                    assert(v@.subrange(from as int, d as int) =~= n.take(last_dot(n)));
                    Some(text_of(&v, from, d))
                },
                None => Some(text_of(&v, from, to)),
            }
        },
        None => None,
    }
}

/// The extension of `path`.
pub fn extension_of(path: &str) -> (r: Option<String>)
    ensures
        opt_text(r) == extension(path@),
{
    let v = chars_of(path);
    match name_bounds(&v) {
        Some(b) => {
            let (from, to) = b;
            let ghost n = v@.subrange(from as int, to as int);
            match dot_in(&v, from, to) {
                Some(d) => {
                    assert(v@.subrange(d + 1, to as int) =~= n.skip(last_dot(n) + 1));
                    Some(text_of(&v, d + 1, to))
                },
                None => None,
            }
        },
        None => None,
    }
}

// ---------------------------------------------------------------------------
// Laws
// ---------------------------------------------------------------------------

/// A name: no slash in it, and neither `.` nor `..`.
pub open spec fn is_name(n: Seq<char>) -> bool {
    &&& n.len() > 0
    &&& !n.contains('/')
    &&& n != seq!['.']
    &&& n != seq!['.', '.']
}

/// The last file or directory of a path is the name that was put at its end,
/// also with a slash behind it.
pub proof fn law_a_name_is_found_again(base: Seq<char>, n: Seq<char>)
    requires
        is_name(n),
    ensures
        file_name(join_path(base, n)) == Some(n),
        file_name(join_path(base, n).push('/')) == Some(n),
        file_name(n) == Some(n),
{
    let p = join_path(base, n);
    let from = p.len() - n.len();
    assert(n[0] != '/') by {
        assert(n.contains(n[0]));
    }
    assert forall|j: int| from <= j < p.len() implies p[j] != '/' by {
        assert(p[j] == n[j - from]);
        assert(n.contains(n[j - from]));
    }
    lemma_last_segment(p, from);
    assert(p.skip(from) =~= n);
    assert forall|j: int| 0 <= j < n.len() implies n[j] != '/' by {
        assert(n.contains(n[j]));
    }
    lemma_last_segment(n, 0);
    assert(n.skip(0) =~= n);
    assert(p.last() == n.last() && n.last() != '/');
    assert(p.push('/').drop_last() =~= p);
}

/// A path is put together from its parts with one slash between them; an
/// absolute path stays as it is.
pub proof fn law_paths_are_joined_with_one_slash(base: Seq<char>, rel: Seq<char>)
    requires
        rel.len() > 0 ==> rel[0] != '/',
    ensures
        base.len() > 0 && base.last() != '/' ==> join_path(base, rel) == base + seq!['/'] + rel,
        join_path(base.push('/'), rel) == base.push('/') + rel,
        join_path(Seq::<char>::empty(), rel) == rel,
        join_path(base, seq!['/'] + rel) == seq!['/'] + rel,
{
    assert(base.push('/') + rel =~= base + seq!['/'] + rel);
    assert(Seq::<char>::empty() + rel =~= rel);
}

/// A file name is its stem, a dot and its extension; the extension has no dot.
/// A name without a dot behind its first character is a stem alone.
pub proof fn law_stem_and_extension_make_the_name(
    base: Seq<char>,
    stem: Seq<char>,
    ext: Seq<char>,
)
    requires
        stem.len() > 0,
        !stem.contains('/'),
        !ext.contains('/'),
        !ext.contains('.'),
        is_name(stem + seq!['.'] + ext),
    ensures
        file_stem(join_path(base, stem + seq!['.'] + ext)) == Some(stem),
        extension(join_path(base, stem + seq!['.'] + ext)) == Some(ext),
        is_name(ext) ==> file_stem(join_path(base, ext)) == Some(ext) && extension(
            join_path(base, ext),
        ) is None,
{
    let n = stem + seq!['.'] + ext;
    law_a_name_is_found_again(base, n);
    lemma_last_dot(stem, ext);
    assert(n.take(stem.len() as int) =~= stem);
    assert(n.skip(stem.len() as int + 1) =~= ext);
    if is_name(ext) {
        law_a_name_is_found_again(base, ext);
        lemma_no_dot(ext);
    }
}

proof fn lemma_last_dot(stem: Seq<char>, ext: Seq<char>)
    requires
        !ext.contains('.'),
    ensures
        last_dot(stem + seq!['.'] + ext) == stem.len(),
    decreases ext.len(),
{
    let n = stem + seq!['.'] + ext;
    if ext.len() > 0 {
        assert(ext.contains(ext.last()));
        assert(n.last() == ext.last());
        let e = ext.drop_last();
        assert(n.drop_last() =~= stem + seq!['.'] + e);
        assert(!e.contains('.')) by {
            if e.contains('.') {
                let i = choose|i: int| 0 <= i < e.len() && e[i] == '.';
                assert(ext[i] == '.');
            }
        }
        lemma_last_dot(stem, e);
    }
}

proof fn lemma_no_dot(s: Seq<char>)
    requires
        !s.contains('.'),
    ensures
        last_dot(s) == -1,
    decreases s.len(),
{
    if s.len() > 0 {
        assert(s.contains(s.last()));
        let t = s.drop_last();
        assert(!t.contains('.')) by {
            if t.contains('.') {
                let i = choose|i: int| 0 <= i < t.len() && t[i] == '.';
                assert(s[i] == '.');
            }
        }
        lemma_no_dot(t);
    }
}

} // verus!
