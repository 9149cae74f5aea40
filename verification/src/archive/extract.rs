//! Which extracted files are reported.
use crate::archive::extract_cache::{out_path_under, session_out_path};
use crate::archive::seven_zip::ExtractOptions;
use crate::path::{extension, extension_of};
use crate::archive::hehe_paths::strings_view;
use crate::text::{append_str, ascii_lower, ascii_lower_of, chars_eq, chars_of, str_eq_chars, strip_prefix, strip_prefix_of};
use vstd::prelude::*;

verus! {

/// Whether a file passes the extension filter: always where there is no
/// filter or it is empty; else where its extension (compared without case)
/// is in the filter.
pub open spec fn passes_filter_spec(path: Seq<char>, filter: Option<Seq<Seq<char>>>) -> bool {
    match filter {
        None => true,
        Some(f) => f.len() == 0 || exists|i: int|
            0 <= i < f.len() && ascii_lower(#[trigger] f[i]) == match extension(path) {
                Some(e) => ascii_lower(e),
                None => Seq::<char>::empty(),
            },
    }
}

pub open spec fn filter_view(options: ExtractOptions) -> Option<Seq<Seq<char>>> {
    match options.extensions_filter {
        Some(f) => Some(f@.map_values(|s: String| s@)),
        None => None,
    }
}

pub fn passes_filter(path: &str, options: &ExtractOptions) -> (res: bool)
    ensures
        res == passes_filter_spec(path@, filter_view(*options)),
{
    match &options.extensions_filter {
        None => true,
        Some(filter) => {
            if filter.len() == 0 {
                return true;
            }
            let ext = match extension_of(&chars_of(path)) {
                Some(e) => ascii_lower_of(&e),
                None => Vec::new(),
            };
            let ghost fv = filter@.map_values(|s: String| s@);
            assert(filter_view(*options) == Some(fv));
            let mut i: usize = 0;
            while i < filter.len()
                invariant
                    i <= filter@.len(),
                    fv == filter@.map_values(|s: String| s@),
                    filter_view(*options) == Some(fv),
                    ext@ == match extension(path@) {
                        Some(e) => ascii_lower(e),
                        None => Seq::<char>::empty(),
                    },
                    forall|j: int| 0 <= j < i ==> ascii_lower(#[trigger] fv[j]) != ext@,
                decreases filter@.len() - i,
            {
                let f = ascii_lower_of(&chars_of(filter[i].as_str()));
                assert(fv[i as int] == filter@[i as int]@);
                if chars_eq(&f, &ext) {
                    assert(ascii_lower(fv[i as int]) == ext@);
                    return true;
                }
                i = i + 1;
            }
            false
        },
    }
}

/// Where a named entry was extracted to under `dest`.
pub fn extracted_target(dest: &str, entry: &str, options: &ExtractOptions) -> (res: String)
    ensures
        res@ == out_path_under(dest@, entry@, options.preserve_paths),
{
    session_out_path(dest, entry, options.preserve_paths)
}


/// Whether `f` lies inside folder `dir`.
pub open spec fn inside(f: Seq<char>, dir: Seq<char>) -> bool {
    strip_prefix(f, dir + "/"@) is Some
}

/// The files (in order) that pass the filter and, where `dir` is given, lie
/// inside it.
pub open spec fn select_files(files: Seq<Seq<char>>, dir: Option<Seq<char>>, filter: Option<Seq<Seq<char>>>) -> Seq<Seq<char>>
    decreases files.len(),
{
    if files.len() == 0 {
        Seq::empty()
    } else {
        let rest = select_files(files.drop_last(), dir, filter);
        let f = files.last();
        let in_dir = match dir {
            Some(d) => inside(f, d),
            None => true,
        };
        if in_dir && passes_filter_spec(f, filter) {
            rest.push(f)
        } else {
            rest
        }
    }
}

/// What one requested entry yields: its target where that is a file that
/// passes the filter; nothing where it is another file; else the files inside
/// it, as a folder.
pub open spec fn collected_for(dest: Seq<char>, entry: Seq<char>, preserve_paths: bool, filter: Option<Seq<Seq<char>>>, files: Seq<Seq<char>>) -> Seq<Seq<char>> {
    let t = out_path_under(dest, entry, preserve_paths);
    if files.contains(t) {
        if passes_filter_spec(t, filter) {
            seq![t]
        } else {
            Seq::empty()
        }
    } else {
        select_files(files, Some(t), filter)
    }
}

/// What the requested entries yield, one after the other.
pub open spec fn collected_entries(dest: Seq<char>, entries: Seq<Seq<char>>, preserve_paths: bool, filter: Option<Seq<Seq<char>>>, files: Seq<Seq<char>>) -> Seq<Seq<char>>
    decreases entries.len(),
{
    if entries.len() == 0 {
        Seq::empty()
    } else {
        collected_entries(dest, entries.drop_last(), preserve_paths, filter, files) + collected_for(
            dest,
            entries.last(),
            preserve_paths,
            filter,
            files,
        )
    }
}

/// The extracted files to report: with no entries requested, every file under
/// `dest` that passes the filter; else what each entry yields.
pub open spec fn collected(dest: Seq<char>, entries: Seq<Seq<char>>, preserve_paths: bool, filter: Option<Seq<Seq<char>>>, files: Seq<Seq<char>>) -> Seq<Seq<char>> {
    if entries.len() == 0 {
        select_files(files, None, filter)
    } else {
        collected_entries(dest, entries, preserve_paths, filter, files)
    }
}

/// The files of `files` that pass the filter and lie inside `dir` where it is
/// given, appended to `out`.
fn push_selected(out: &mut Vec<String>, files: &[String], dir: &Option<Vec<char>>, options: &ExtractOptions)
    ensures
        strings_view(final(out)@) == strings_view(old(out)@) + select_files(
            strings_view(files@),
            match dir {
                Some(d) => Some(d@),
                None => None,
            },
            filter_view(*options),
        ),
{
    let ghost fv = strings_view(files@);
    let ghost dv: Option<Seq<char>> = match dir {
        Some(d) => Some(d@),
        None => None,
    };
    let ghost start = strings_view(out@);
    let prefix: Option<Vec<char>> = match dir {
        Some(d) => {
            let mut p = d.clone();
            append_str(&mut p, "/");
            Some(p)
        },
        None => None,
    };
    let mut i: usize = 0;
    while i < files.len()
        invariant
            i <= files@.len(),
            fv == strings_view(files@),
            match dir {
                Some(d) => prefix matches Some(p) && p@ == d@ + "/"@,
                None => prefix is None,
            },
            dv == match dir {
                Some(d) => Some(d@),
                None => None::<Seq<char>>,
            },
            strings_view(out@) == start + select_files(fv.take(i as int), dv, filter_view(*options)),
        decreases files@.len() - i,
    {
        let f = &files[i];
        let fc = chars_of(f.as_str());
        let in_dir = match &prefix {
            Some(p) => strip_prefix_of(&fc, p).is_some(),
            None => true,
        };
        assert(fv.take(i + 1).drop_last() =~= fv.take(i as int));
        assert(fv.take(i + 1).last() == f@);
        assert(in_dir == match dv {
            Some(d) => inside(f@, d),
            None => true,
        });
        let ghost prev = out@;
        if in_dir && passes_filter(f.as_str(), options) {
            let fcl = f.clone();
            out.push(fcl);
            assert(strings_view(out@) =~= strings_view(prev).push(f@));
        }
        assert(strings_view(out@) =~= start + select_files(fv.take(i + 1), dv, filter_view(*options)));
        i = i + 1;
    }
    assert(fv.take(files@.len() as int) =~= fv);
}

/// Whether `t` is one of `files`.
fn has_file(files: &[String], t: &Vec<char>) -> (res: bool)
    ensures
        res == strings_view(files@).contains(t@),
{
    let ghost fv = strings_view(files@);
    let mut i: usize = 0;
    while i < files.len()
        invariant
            i <= files@.len(),
            fv == strings_view(files@),
            forall|j: int| 0 <= j < i ==> fv[j] != t@,
        decreases files@.len() - i,
    {
        if str_eq_chars(files[i].as_str(), t) {
            assert(fv[i as int] == t@);
            return true;
        }
        i = i + 1;
    }
    false
}

/// The extracted files to report, given the files found under `dest` (every
/// file there, in the order a walk of the folders found them): with no
/// entries requested, all of them that pass the filter; else, for each entry,
/// its target where it is a file that passes, or the files inside it where it
/// is a folder.
pub fn collect_extracted_paths(dest: &str, entries: &[String], options: &ExtractOptions, files: &[String]) -> (res: Vec<String>)
    ensures
        strings_view(res@) == collected(
            dest@,
            strings_view(entries@),
            options.preserve_paths,
            filter_view(*options),
            strings_view(files@),
        ),
{
    let mut result: Vec<String> = Vec::new();
    if entries.len() == 0 {
        push_selected(&mut result, files, &None, options);
        assert(strings_view(result@) =~= select_files(strings_view(files@), None, filter_view(*options)));
        return result;
    }
    let ghost ev = strings_view(entries@);
    let ghost fv = strings_view(files@);
    let ghost filter = filter_view(*options);
    let mut i: usize = 0;
    while i < entries.len()
        invariant
            i <= entries@.len(),
            ev == strings_view(entries@),
            fv == strings_view(files@),
            filter == filter_view(*options),
            strings_view(result@) == collected_entries(dest@, ev.take(i as int), options.preserve_paths, filter, fv),
        decreases entries@.len() - i,
    {
        let t = extracted_target(dest, entries[i].as_str(), options);
        let tc = chars_of(t.as_str());
        let ghost before = strings_view(result@);
        assert(ev.take(i + 1).drop_last() =~= ev.take(i as int));
        assert(ev.take(i + 1).last() == entries@[i as int]@);
        if has_file(files, &tc) {
            if passes_filter(t.as_str(), options) {
                result.push(t);
            }
        } else {
            push_selected(&mut result, files, &Some(tc), options);
        }
        assert(strings_view(result@) =~= before + collected_for(dest@, ev[i as int], options.preserve_paths, filter, fv));
        i = i + 1;
    }
    assert(ev.take(entries@.len() as int) =~= ev);
    result
}

} // verus!
