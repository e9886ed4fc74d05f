//! The Directory Scanner's decision: which files of the source tree are
//! candidate archives. The walk itself reads the filesystem and stays
//! outside the library; it hands each yielded path to the filter here.

use vstd::prelude::*;
use vstd::string::*;
use crate::paths::extension_of;
use crate::paths::file_name_of;
use crate::paths::lemma_dot_suffix_at;
use crate::paths::lemma_dot_suffix_none;
use crate::paths::lemma_extension_under_dir;
use crate::paths::lemma_file_name_at;
use crate::strings::last_index_of;
use crate::strings::str_eq;

verus! {

/// The fixed extension that marks a file as a candidate archive.
pub open spec fn archive_extension() -> Seq<char> {
    "iwd"@
}

/// True when the path names a candidate archive: its extension is exactly
/// the archive extension (a case-sensitive match).
pub open spec fn is_archive_path(p: Seq<char>) -> bool {
    extension_of(p) == Some(archive_extension())
}

/// The candidate test as a predicate value, for stating what the scanner's
/// filter keeps.
pub open spec fn archive_pred() -> spec_fn(Seq<char>) -> bool {
    |s: Seq<char>| is_archive_path(s)
}

/// True exactly when the path's extension equals `ext`.
pub fn path_has_extension(p: &str, ext: &str) -> (r: bool)
    ensures
        r == (extension_of(p@) == Some(ext@)),
{
    let n = p.unicode_len();
    let k: usize = match last_index_of(p, '/') {
        Some(i) => i + 1,
        None => 0,
    };
    proof {
        lemma_file_name_at(p@, k as int);
    }
    if k == n {
        // the path ends in '/': its final component is empty
        return false;
    }
    let name = p.substring_char(k, n);
    proof {
        assert(name@ == file_name_of(p@));
    }
    match last_index_of(name, '.') {
        None => {
            proof {
                assert(forall|t: int|
                    0 <= t < name@.drop_first().len() ==> name@.drop_first()[t] != '.');
                lemma_dot_suffix_none(name@.drop_first());
            }
            false
        },
        Some(j) => {
            if j == 0 {
                // the only dot starts the component: no extension
                proof {
                    assert(forall|t: int|
                        0 <= t < name@.drop_first().len() ==> name@.drop_first()[t] != '.');
                    lemma_dot_suffix_none(name@.drop_first());
                }
                false
            } else {
                proof {
                    assert(name@.drop_first()[j - 1] == '.');
                    assert(forall|t: int|
                        j - 1 < t < name@.drop_first().len() ==> name@.drop_first()[t] != '.');
                    lemma_dot_suffix_at(name@.drop_first(), j - 1);
                    assert(name@.drop_first().subrange(j as int, name@.len() - 1) =~= name@
                        .subrange(j + 1, name@.len() as int));
                }
                let m = name.unicode_len();
                let sub = name.substring_char(j + 1, m);
                str_eq(sub, ext)
            }
        },
    }
}

/// True exactly when the path names a candidate archive.
pub fn path_is_archive(p: &str) -> (r: bool)
    ensures
        r == is_archive_path(p@),
{
    path_has_extension(p, "iwd")
}

/// Whether a path is a candidate archive depends on the path alone, never on
/// how deep under the scanned root the walk found it: prefixing any
/// directory leaves the decision unchanged.
pub proof fn lemma_scan_depth_independent(dir: Seq<char>, p: Seq<char>)
    ensures
        is_archive_path(dir + "/"@ + p) == is_archive_path(p),
{
    reveal_strlit("/");
    assert((dir + "/"@).last() == '/');
    lemma_extension_under_dir(dir + "/"@, p);
}

/// The scanner's filter over the paths the walk yields: keeps exactly the
/// candidate archives, in the order they were yielded.
pub fn scan_filter(paths: &Vec<String>) -> (r: Vec<String>)
    ensures
        r.deep_view() == paths.deep_view().filter(archive_pred()),
{
    let mut r: Vec<String> = Vec::new();
    let mut i: usize = 0;
    while i < paths.len()
        invariant
            i <= paths.len(),
            r.deep_view() == paths.deep_view().subrange(0, i as int).filter(archive_pred()),
        decreases paths.len() - i,
    {
        let ghost pre = r.deep_view();
        let p = &paths[i];
        if path_is_archive(p.as_str()) {
            r.push(p.clone());
            proof {
                assert(r.deep_view() =~= pre.push(p@));
            }
        }
        proof {
            reveal(Seq::filter);
            let f = archive_pred();
            let dv = paths.deep_view();
            assert(dv.subrange(0, i + 1).drop_last() =~= dv.subrange(0, i as int));
            assert(dv.subrange(0, i + 1).last() == dv[i as int]);
            assert(dv[i as int] == p@);
            assert(r.deep_view() =~= dv.subrange(0, i + 1).filter(f));
        }
        i += 1;
    }
    proof {
        reveal(Seq::filter);
        assert(paths.deep_view().subrange(0, paths.len() as int) =~= paths.deep_view());
    }
    r
}

} // verus!
