//! Slash-separated file paths as `std::path::Path` reads them on Unix:
//! `file_name`, `extension`, `file_stem`, `parent` and `join`, over characters.
use crate::text::{
    append_chars, chars_eq, last_index, last_index_of, lemma_last_index, slice_chars, split_of,
    split_pieces,
};
use vstd::prelude::*;

verus! {

/// A piece between separators that names no component: empty, or `.`.
pub open spec fn is_skip_piece(p: Seq<char>) -> bool {
    p.len() == 0 || p == seq!['.']
}

/// The bounds of the last component of `s` that is neither empty nor `.`.
pub open spec fn last_piece(s: Seq<char>) -> Option<(int, int)>
    decreases s.len(),
{
    match last_index(s, '/') {
        Some(j) => {
            if !is_skip_piece(s.skip(j + 1)) {
                Some((j + 1, s.len() as int))
            } else if 0 <= j < s.len() {
                last_piece(s.take(j))
            } else {
                None
            }
        },
        None => if !is_skip_piece(s) {
            Some((0, s.len() as int))
        } else {
            None
        },
    }
}

pub proof fn lemma_last_piece(s: Seq<char>)
    ensures
        last_piece(s) matches Some((a, b)) ==> 0 <= a <= b <= s.len(),
    decreases s.len(),
{
    lemma_last_index(s, '/');
    match last_index(s, '/') {
        Some(j) => {
            if is_skip_piece(s.skip(j + 1)) {
                lemma_last_piece(s.take(j));
            }
        },
        None => {},
    }
}

/// `Path::file_name`.
pub open spec fn file_name(s: Seq<char>) -> Option<Seq<char>> {
    match last_piece(s) {
        Some((a, b)) => if s.subrange(a, b) == seq!['.', '.'] {
            None
        } else {
            Some(s.subrange(a, b))
        },
        None => None,
    }
}

/// `Path::extension` of a file name.
pub open spec fn name_extension(n: Seq<char>) -> Option<Seq<char>> {
    match last_index(n, '.') {
        Some(k) => if k > 0 {
            Some(n.skip(k + 1))
        } else {
            None
        },
        None => None,
    }
}

/// `Path::file_stem` of a file name.
pub open spec fn name_stem(n: Seq<char>) -> Seq<char> {
    match last_index(n, '.') {
        Some(k) => if k > 0 {
            n.take(k)
        } else {
            n
        },
        None => n,
    }
}

/// `Path::extension`.
pub open spec fn extension(s: Seq<char>) -> Option<Seq<char>> {
    match file_name(s) {
        Some(n) => name_extension(n),
        None => None,
    }
}

/// `Path::file_stem`.
pub open spec fn file_stem(s: Seq<char>) -> Option<Seq<char>> {
    match file_name(s) {
        Some(n) => Some(name_stem(n)),
        None => None,
    }
}

pub open spec fn has_root(s: Seq<char>) -> bool {
    s.len() > 0 && s[0] == '/'
}

pub open spec fn has_curdir(s: Seq<char>) -> bool {
    !has_root(s) && s.len() > 0 && s[0] == '.' && (s.len() == 1 || s[1] == '/')
}

/// `Path::parent`.
pub open spec fn parent(s: Seq<char>) -> Option<Seq<char>> {
    match last_piece(s) {
        None => if s.len() == 0 || has_root(s) {
            None
        } else {
            Some(Seq::empty())
        },
        Some((a, b)) => Some(
            match last_piece(s.take(a)) {
                Some((a2, b2)) => s.take(b2),
                None => if has_root(s) {
                    seq!['/']
                } else if has_curdir(s) {
                    seq!['.']
                } else {
                    Seq::empty()
                },
            },
        ),
    }
}

/// `Path::join` (on Unix).
pub open spec fn join(base: Seq<char>, rel: Seq<char>) -> Seq<char> {
    if has_root(rel) || base.len() == 0 {
        rel
    } else if base.last() == '/' {
        base + rel
    } else {
        base + seq!['/'] + rel
    }
}

fn is_skip_piece_of(s: &Vec<char>, a: usize, b: usize) -> (res: bool)
    requires
        a <= b <= s.len(),
    ensures
        res == is_skip_piece(s@.subrange(a as int, b as int)),
{
    if a == b {
        return true;
    }
    if b - a == 1 && s[a] == '.' {
        assert(s@.subrange(a as int, b as int) =~= seq!['.']);
        return true;
    }
    assert(s@.subrange(a as int, b as int).len() != 1 || s@.subrange(a as int, b as int)[0]
        != '.');
    false
}

/// The bounds of the last component of `s` that is neither empty nor `.`.
pub fn last_piece_of(s: &Vec<char>) -> (res: Option<(usize, usize)>)
    ensures
        match res {
            Some((a, b)) => last_piece(s@) == Some((a as int, b as int)),
            None => last_piece(s@) is None,
        },
{
    let mut end: usize = s.len();
    assert(s@.take(end as int) == s@);
    loop
        invariant
            end <= s.len(),
            last_piece(s@) == last_piece(s@.take(end as int)),
        decreases end,
    {
        let ghost t = s@.take(end as int);
        let mut j: usize = end;
        while j > 0 && s[j - 1] != '/'
            invariant
                j <= end <= s.len(),
                forall|k: int| j <= k < end ==> s@[k] != '/',
            decreases j,
        {
            j = j - 1;
        }
        proof {
            lemma_last_index(t, '/');
            if j > 0 {
                assert(t[j - 1] == '/');
                assert forall|k: int| j - 1 < k < t.len() implies t[k] != '/' by {}
                if last_index(t, '/') != Some(j - 1) {
                    let k = last_index(t, '/')->0;
                    assert(t[k] == '/');
                }
                assert(last_index(t, '/') == Some((j - 1) as int));
                assert(t.skip(j as int) == s@.subrange(j as int, end as int));
                assert(t.take(j - 1) == s@.take(j - 1));
            } else {
                if last_index(t, '/') is Some {
                    let k = last_index(t, '/')->0;
                    assert(t[k] == '/');
                }
                assert(t == s@.subrange(0, end as int));
            }
        }
        if !is_skip_piece_of(s, j, end) {
            return Some((j, end));
        }
        if j == 0 {
            return None;
        }
        end = j - 1;
    }
}

/// `Path::file_name`.
pub fn file_name_of(s: &Vec<char>) -> (res: Option<Vec<char>>)
    ensures
        match res {
            Some(n) => file_name(s@) == Some(n@),
            None => file_name(s@) is None,
        },
{
    match last_piece_of(s) {
        Some((a, b)) => {
            proof {
                lemma_last_piece(s@);
            }
            let n = slice_chars(s, a, b);
            if n.len() == 2 && n[0] == '.' && n[1] == '.' {
                assert(n@ =~= seq!['.', '.']);
                None
            } else {
                assert(n@ != seq!['.', '.']);
                Some(n)
            }
        },
        None => None,
    }
}

/// `Path::extension` of a file name.
pub fn name_extension_of(n: &Vec<char>) -> (res: Option<Vec<char>>)
    ensures
        match res {
            Some(e) => name_extension(n@) == Some(e@),
            None => name_extension(n@) is None,
        },
{
    proof {
        lemma_last_index(n@, '.');
    }
    match last_index_of(n, '.') {
        Some(k) => if k > 0 {
            assert(k < n@.len());
            assert(n@.len() == n.len());
            assert(k + 1 <= n.len());
            Some(slice_chars(n, k + 1, n.len()))
        } else {
            None
        },
        None => None,
    }
}

/// `Path::file_stem` of a file name.
pub fn name_stem_of(n: &Vec<char>) -> (res: Vec<char>)
    ensures
        res@ == name_stem(n@),
{
    proof {
        lemma_last_index(n@, '.');
    }
    match last_index_of(n, '.') {
        Some(k) => if k > 0 {
            slice_chars(n, 0, k)
        } else {
            slice_chars(n, 0, n.len())
        },
        None => slice_chars(n, 0, n.len()),
    }
}

/// `Path::extension`.
pub fn extension_of(s: &Vec<char>) -> (res: Option<Vec<char>>)
    ensures
        match res {
            Some(e) => extension(s@) == Some(e@),
            None => extension(s@) is None,
        },
{
    match file_name_of(s) {
        Some(n) => name_extension_of(&n),
        None => None,
    }
}

/// `Path::file_stem`.
pub fn file_stem_of(s: &Vec<char>) -> (res: Option<Vec<char>>)
    ensures
        match res {
            Some(e) => file_stem(s@) == Some(e@),
            None => file_stem(s@) is None,
        },
{
    match file_name_of(s) {
        Some(n) => Some(name_stem_of(&n)),
        None => None,
    }
}

/// `Path::parent`.
pub fn parent_of(s: &Vec<char>) -> (res: Option<Vec<char>>)
    ensures
        match res {
            Some(p) => parent(s@) == Some(p@),
            None => parent(s@) is None,
        },
{
    match last_piece_of(s) {
        None => {
            if s.len() == 0 || s[0] == '/' {
                None
            } else {
                Some(Vec::new())
            }
        },
        Some((a, b)) => {
            proof {
                lemma_last_piece(s@);
            }
            let pre = slice_chars(s, 0, a);
            assert(pre@ == s@.take(a as int));
            match last_piece_of(&pre) {
                Some((a2, b2)) => {
                    proof {
                        lemma_last_piece(pre@);
                    }
                    let r = slice_chars(s, 0, b2);
                    assert(r@ == s@.take(b2 as int));
                    Some(r)
                },
                None => {
                    let mut r: Vec<char> = Vec::new();
                    if s.len() > 0 && s[0] == '/' {
                        r.push('/');
                        assert(r@ =~= seq!['/']);
                    } else if s.len() > 0 && s[0] == '.' && (s.len() == 1 || s[1] == '/') {
                        r.push('.');
                        assert(r@ =~= seq!['.']);
                    }
                    Some(r)
                },
            }
        },
    }
}

/// `Path::join` (on Unix).
pub fn join_of(base: &Vec<char>, rel: &Vec<char>) -> (res: Vec<char>)
    ensures
        res@ == join(base@, rel@),
{
    if (rel.len() > 0 && rel[0] == '/') || base.len() == 0 {
        slice_chars(rel, 0, rel.len())
    } else {
        let mut out = slice_chars(base, 0, base.len());
        if base[base.len() - 1] != '/' {
            out.push('/');
        }
        append_chars(&mut out, rel);
        out
    }
}


/// The pieces that name something: neither empty nor `.`.
pub open spec fn named_pieces(ps: Seq<Seq<char>>) -> Seq<Seq<char>>
    decreases ps.len(),
{
    if ps.len() == 0 {
        Seq::empty()
    } else if is_skip_piece(ps.last()) {
        named_pieces(ps.drop_last())
    } else {
        named_pieces(ps.drop_last()).push(ps.last())
    }
}

/// The named pieces of a `/`-separated path, in order.
pub open spec fn segments(s: Seq<char>) -> Seq<Seq<char>> {
    named_pieces(split_pieces(s, '/'))
}

/// The named pieces of a `/`-separated path.
pub fn segments_of(s: &Vec<char>) -> (res: Vec<Vec<char>>)
    ensures
        res.deep_view() == segments(s@),
{
    let ps = split_of(s, '/');
    let ghost pv = ps.deep_view();
    let mut out: Vec<Vec<char>> = Vec::new();
    let mut i: usize = 0;
    assert(pv.take(0) =~= Seq::<Seq<char>>::empty());
    assert(out.deep_view() =~= Seq::<Seq<char>>::empty());
    while i < ps.len()
        invariant
            i <= ps.len(),
            pv == ps.deep_view(),
            out.deep_view() == named_pieces(pv.take(i as int)),
        decreases ps.len() - i,
    {
        assert(pv.take(i + 1).drop_last() =~= pv.take(i as int));
        assert(pv.take(i + 1).last() == ps@[i as int]@);
        let p = &ps[i];
        let skip = p.len() == 0 || (p.len() == 1 && p[0] == '.');
        assert(skip == is_skip_piece(ps@[i as int]@)) by {
            if p.len() == 1 && p[0] == '.' {
                assert(p@ =~= seq!['.']);
            }
        }
        if !skip {
            let ghost old_dv = out.deep_view();
            out.push(slice_chars(p, 0, p.len()));
            assert(p@.subrange(0, p@.len() as int) =~= p@);
            assert(out.deep_view() =~= old_dv.push(ps@[i as int]@));
        }
        i = i + 1;
    }
    assert(pv.take(ps.len() as int) =~= pv);
    out
}

/// Whether some piece is `..`.
pub open spec fn has_parent_piece(ps: Seq<Seq<char>>) -> bool {
    exists|i: int| 0 <= i < ps.len() && #[trigger] ps[i] == seq!['.', '.']
}

/// Whether some piece from index `from` on is `..`.
pub fn has_parent_piece_from(ps: &Vec<Vec<char>>, from: usize) -> (res: bool)
    requires
        from <= ps.len(),
    ensures
        res == has_parent_piece(ps.deep_view().skip(from as int)),
{
    let ghost tail = ps.deep_view().skip(from as int);
    let mut dots: Vec<char> = Vec::new();
    dots.push('.');
    dots.push('.');
    assert(dots@ =~= seq!['.', '.']);
    let mut i: usize = from;
    while i < ps.len()
        invariant
            from <= i <= ps.len(),
            tail == ps.deep_view().skip(from as int),
            dots@ == seq!['.', '.'],
            forall|j: int| 0 <= j < i - from ==> #[trigger] tail[j] != seq!['.', '.'],
        decreases ps.len() - i,
    {
        assert(tail[i - from] == ps.deep_view()[i as int]);
        assert(ps.deep_view()[i as int] == ps@[i as int]@);
        if chars_eq(&ps[i], &dots) {
            return true;
        }
        i = i + 1;
    }
    false
}

pub fn has_parent_piece_of(ps: &Vec<Vec<char>>) -> (res: bool)
    ensures
        res == has_parent_piece(ps.deep_view()),
{
    assert(ps.deep_view().skip(0) =~= ps.deep_view());
    has_parent_piece_from(ps, 0)
}

/// `Path::components` on Unix, each component as its text: `/` for the root,
/// `.` for a leading current directory, then the named pieces.
pub open spec fn components(s: Seq<char>) -> Seq<Seq<char>> {
    if has_root(s) {
        seq![seq!['/']] + segments(s)
    } else if has_curdir(s) {
        seq![seq!['.']] + segments(s)
    } else {
        segments(s)
    }
}

pub fn components_of(s: &Vec<char>) -> (res: Vec<Vec<char>>)
    ensures
        res.deep_view() == components(s@),
{
    let segs = segments_of(s);
    let lead: char;
    if s.len() > 0 && s[0] == '/' {
        lead = '/';
    } else if s.len() > 0 && s[0] == '.' && (s.len() == 1 || s[1] == '/') {
        lead = '.';
    } else {
        return segs;
    }
    let mut out: Vec<Vec<char>> = Vec::new();
    let mut first: Vec<char> = Vec::new();
    first.push(lead);
    assert(first@ =~= seq![lead]);
    out.push(first);
    let ghost target = seq![seq![lead]] + segs.deep_view();
    assert(segs.deep_view().len() == segs@.len());
    assert forall|k: int| 0 <= k < segs.len() implies target[k + 1] == #[trigger] segs.deep_view()[k] by {}
    let mut i: usize = 0;
    assert(out.deep_view()[0] == out@[0]@);
    assert(out.deep_view() =~= target.take(1));
    while i < segs.len()
        invariant
            i <= segs.len(),
            target == seq![seq![lead]] + segs.deep_view(),
            target.len() == segs.len() + 1,
            forall|k: int| 0 <= k < segs.len() ==> target[k + 1] == #[trigger] segs.deep_view()[k],
            out.deep_view() == target.take(i + 1),
        decreases segs.len() - i,
    {
        let ghost old_dv = out.deep_view();
        let ghost old_out = out@;
        let piece = slice_chars(&segs[i], 0, segs[i].len());
        assert(piece@ =~= segs@[i as int]@);
        out.push(piece);
        assert(old_dv.len() == i + 1);
        assert(out@.len() == i + 2);
        assert(target[i + 1] == segs.deep_view()[i as int]);
        assert(segs.deep_view()[i as int] == segs@[i as int]@);
        assert forall|k: int| 0 <= k < i + 2 implies out.deep_view()[k] == target.take(i + 2)[k] by {
            assert(out.deep_view()[k] == out@[k]@);
            if k < i + 1 {
                assert(out@[k] == old_out[k]);
                assert(old_dv[k] == old_out[k]@);
                assert(old_dv[k] == target.take(i + 1)[k]);
            } else {
                assert(out@[k] == piece);
            }
        }
        assert(out.deep_view() =~= target.take(i + 2));
        i = i + 1;
    }
    assert(target.take(segs.len() + 1) =~= target);
    out
}

} // verus!
