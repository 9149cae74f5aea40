//! Output names for archives the user creates.
use crate::path::{
    extension, extension_of, file_name, file_stem, file_stem_of, has_root, is_skip_piece, join, join_of,
    last_piece, name_extension, name_stem, parent, parent_of,
};
use crate::text::{has_char, last_index, lemma_last_index};
use crate::text::{append_str, chars_of, eq_ignore_case, eq_ignore_case_of, string_of};
use vstd::prelude::*;

verus! {

/// The name an archive is written under: kept where it already ends with
/// `.hehe` (in any case), else its stem with `.hehe` in the same folder.
pub open spec fn with_hehe_extension(p: Seq<char>) -> Seq<char> {
    if extension(p) matches Some(e) && eq_ignore_case(e, "hehe"@) {
        p
    } else {
        match file_stem(p) {
            Some(stem) => match parent(p) {
                Some(par) => if par.len() > 0 {
                    join(par, stem + ".hehe"@)
                } else {
                    stem + ".hehe"@
                },
                None => stem + ".hehe"@,
            },
            None => p + ".hehe"@,
        }
    }
}

pub fn ensure_hehe_extension(output_path: &str) -> (res: String)
    ensures
        res@ == with_hehe_extension(output_path@),
{
    let p = chars_of(output_path);
    let hehe = chars_of("hehe");
    match extension_of(&p) {
        Some(e) => {
            if eq_ignore_case_of(&e, &hehe) {
                return string_of(&p);
            }
        },
        None => {},
    }
    match file_stem_of(&p) {
        Some(stem) => {
            let mut name = stem;
            append_str(&mut name, ".hehe");
            match parent_of(&p) {
                Some(par) => {
                    if par.len() > 0 {
                        let j = join_of(&par, &name);
                        string_of(&j)
                    } else {
                        string_of(&name)
                    }
                },
                None => string_of(&name),
            }
        },
        None => {
            let mut name = p;
            append_str(&mut name, ".hehe");
            string_of(&name)
        },
    }
}

/// Whether a text holds no `/`.
pub open spec fn no_slash(x: Seq<char>) -> bool {
    forall|i: int| 0 <= i < x.len() ==> x[i] != '/'
}

/// The last component of a path holds no `/` and is a named one.
proof fn lemma_last_piece_plain(s: Seq<char>)
    ensures
        last_piece(s) matches Some((a, b)) ==> 0 <= a <= b <= s.len() && no_slash(s.subrange(a, b))
            && !is_skip_piece(s.subrange(a, b)),
    decreases s.len(),
{
    lemma_last_index(s, '/');
    match last_index(s, '/') {
        Some(j) => {
            if !is_skip_piece(s.skip(j + 1)) {
                assert(s.subrange(j + 1, s.len() as int) =~= s.skip(j + 1));
            } else {
                lemma_last_piece_plain(s.take(j));
                match last_piece(s.take(j)) {
                    Some((a, b)) => {
                        assert(s.take(j).subrange(a, b) =~= s.subrange(a, b));
                    },
                    None => {},
                }
            }
        },
        None => {
            assert(s.subrange(0, s.len() as int) =~= s);
        },
    }
}

/// The name of a path that ends in `/` followed by a plain name, or that is
/// only that name, is that name.
proof fn lemma_file_name_appended(base: Seq<char>, x: Seq<char>)
    requires
        base.len() == 0 || base.last() == '/',
        no_slash(x),
        !is_skip_piece(x),
        x != seq!['.', '.'],
    ensures
        file_name(base + x) == Some(x),
{
    let s = base + x;
    lemma_last_index(s, '/');
    if base.len() == 0 {
        assert(s =~= x);
        assert(last_index(s, '/') is None) by {
            match last_index(s, '/') {
                Some(k) => {
                    assert(s[k] == x[k]);
                },
                None => {},
            }
        }
        assert(s.subrange(0, s.len() as int) =~= x);
    } else {
        let k = base.len() - 1;
        assert(s[k] == '/');
        assert(last_index(s, '/') == Some(k)) by {
            match last_index(s, '/') {
                None => {},
                Some(k2) => {
                    if k2 > k {
                        assert(s[k2] == x[k2 - base.len()]);
                    }
                },
            }
        }
        assert(s.skip(k + 1) =~= x);
        assert(s.subrange(k + 1, s.len() as int) =~= x);
    }
}

/// Where a path has a file name, the name an archive is written under ends
/// in `.hehe` (in any case), so asking again changes nothing.
pub proof fn lemma_hehe_extension_settled(p: Seq<char>)
    requires
        file_name(p) is Some,
    ensures
        extension(with_hehe_extension(p)) matches Some(e) && eq_ignore_case(e, "hehe"@),
        with_hehe_extension(with_hehe_extension(p)) == with_hehe_extension(p),
{
    if extension(p) is Some && eq_ignore_case(extension(p).unwrap(), "hehe"@) {
    } else {
        reveal_strlit(".hehe");
        reveal_strlit("hehe");
        lemma_last_piece_plain(p);
        let n = file_name(p).unwrap();
        let stem = name_stem(n);
        lemma_last_index(n, '.');
        assert(no_slash(stem) && stem.len() > 0) by {
            match last_index(n, '.') {
                Some(k) => {
                    if k > 0 {
                        assert forall|i: int| 0 <= i < stem.len() implies stem[i] != '/' by {
                            assert(stem[i] == n[i]);
                        }
                    }
                },
                None => {},
            }
        }
        let x = stem + ".hehe"@;
        assert(no_slash(x)) by {
            assert forall|i: int| 0 <= i < x.len() implies x[i] != '/' by {
                if i >= stem.len() {
                    assert(x[i] == ".hehe"@[i - stem.len()]);
                }
            }
        }
        assert(!is_skip_piece(x));
        assert(x != seq!['.', '.']) by {
            assert(x.len() >= 6);
        }
        let r = with_hehe_extension(p);
        match parent(p) {
            Some(par) => {
                if par.len() > 0 {
                    assert(!has_root(x));
                    if par.last() == '/' {
                        lemma_file_name_appended(par, x);
                    } else {
                        let b = par + seq!['/'];
                        assert(par + seq!['/'] + x =~= b + x);
                        lemma_file_name_appended(b, x);
                    }
                } else {
                    lemma_file_name_appended(Seq::empty(), x);
                    assert(Seq::<char>::empty() + x =~= x);
                }
            },
            None => {
                lemma_file_name_appended(Seq::empty(), x);
                assert(Seq::<char>::empty() + x =~= x);
            },
        }
        assert(file_name(r) == Some(x));
        lemma_last_index(x, '.');
        assert(last_index(x, '.') == Some(stem.len() as int)) by {
            assert(x[stem.len() as int] == '.');
            match last_index(x, '.') {
                None => {},
                Some(k2) => {
                    if k2 > stem.len() {
                        assert(x[k2] == ".hehe"@[k2 - stem.len()]);
                    }
                },
            }
        }
        assert(x.skip(stem.len() as int + 1) =~= "hehe"@);
        assert(name_extension(x) == Some("hehe"@));
    }
}

} // verus!
