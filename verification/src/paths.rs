//! The Path Resolver: joining an entry's relative path onto the output root,
//! and reading a path's final component and extension.

use vstd::prelude::*;
use vstd::string::*;

verus! {

/// The output path for an entry: its relative path joined onto the output
/// root. An absolute entry path replaces the root, an empty root leaves the
/// entry path as it is, and otherwise the two are joined with exactly one
/// separator. No segment of the entry path is normalized or rejected: a
/// path that climbs out of the root with `..` segments resolves outside it.
pub open spec fn join_path(root: Seq<char>, rel: Seq<char>) -> Seq<char> {
    if rel.len() > 0 && rel[0] == '/' {
        rel
    } else if root.len() == 0 {
        rel
    } else if root.last() == '/' {
        root + rel
    } else {
        root + "/"@ + rel
    }
}

/// Resolves an entry's output path; the returned string is `join_path` of
/// the two arguments.
pub fn resolve_output(root: &str, rel: &str) -> (r: String)
    ensures
        r@ == join_path(root@, rel@),
{
    let rl = rel.unicode_len();
    if rl > 0 && rel.get_char(0) == '/' {
        return rel.to_owned();
    }
    let n = root.unicode_len();
    if n == 0 {
        return rel.to_owned();
    }
    let mut out = root.to_owned();
    if root.get_char(n - 1) != '/' {
        out.append("/");
    }
    out.append(rel);
    out
}

/// The final path component: the characters after the last '/', or the whole
/// path when it has none. A path ending in '/' has an empty final component.
pub open spec fn file_name_of(p: Seq<char>) -> Seq<char>
    decreases p.len(),
{
    if p.len() == 0 {
        p
    } else if p.last() == '/' {
        Seq::empty()
    } else {
        file_name_of(p.drop_last()).push(p.last())
    }
}

/// The characters after the last '.' of `s`, or `None` when `s` has no '.'.
pub open spec fn dot_suffix(s: Seq<char>) -> Option<Seq<char>>
    decreases s.len(),
{
    if s.len() == 0 {
        None
    } else if s.last() == '.' {
        Some(Seq::empty())
    } else {
        match dot_suffix(s.drop_last()) {
            None => None,
            Some(e) => Some(e.push(s.last())),
        }
    }
}

/// The path's extension: the part of its final component after that
/// component's last '.', provided the dot is not the component's first
/// character; `None` otherwise.
pub open spec fn extension_of(p: Seq<char>) -> Option<Seq<char>> {
    let name = file_name_of(p);
    if name.len() == 0 {
        None
    } else {
        dot_suffix(name.drop_first())
    }
}

/// The final component starts right after the last '/': when `k` is the
/// index just past it (or 0 with no '/' at all), the component is the
/// suffix of `p` from `k`.
pub proof fn lemma_file_name_at(p: Seq<char>, k: int)
    requires
        0 <= k <= p.len(),
        k == 0 || p[k - 1] == '/',
        forall|j: int| k <= j < p.len() ==> p[j] != '/',
    ensures
        file_name_of(p) == p.subrange(k, p.len() as int),
    decreases p.len(),
{
    if p.len() == 0 {
        assert(file_name_of(p) =~= p.subrange(0, 0));
    } else if p.len() == k {
        assert(p.last() == '/');
        assert(file_name_of(p) =~= p.subrange(k, p.len() as int));
    } else {
        assert(p.last() != '/');
        lemma_file_name_at(p.drop_last(), k);
        assert(file_name_of(p) =~= p.subrange(k, p.len() as int));
    }
}

/// When `s` holds no '.', it has no dot suffix.
pub proof fn lemma_dot_suffix_none(s: Seq<char>)
    requires
        forall|j: int| 0 <= j < s.len() ==> s[j] != '.',
    ensures
        dot_suffix(s) is None,
    decreases s.len(),
{
    if s.len() > 0 {
        lemma_dot_suffix_none(s.drop_last());
    }
}

/// When the last '.' of `s` stands at index `j`, the dot suffix is the part
/// of `s` after it.
pub proof fn lemma_dot_suffix_at(s: Seq<char>, j: int)
    requires
        0 <= j < s.len(),
        s[j] == '.',
        forall|t: int| j < t < s.len() ==> s[t] != '.',
    ensures
        dot_suffix(s) == Some(s.subrange(j + 1, s.len() as int)),
    decreases s.len(),
{
    if j == s.len() - 1 {
        assert(s.last() == '.');
        assert(Seq::<char>::empty() =~= s.subrange(j + 1, s.len() as int));
    } else {
        assert(s.last() != '.');
        lemma_dot_suffix_at(s.drop_last(), j);
        assert(s.drop_last().subrange(j + 1, s.len() - 1).push(s.last()) =~= s.subrange(
            j + 1,
            s.len() as int,
        ));
    }
}

/// The final component of a path is unchanged by the directory it sits
/// under: prefixing any directory (with its trailing separator) leaves it
/// as it is.
pub proof fn lemma_file_name_under_dir(prefix: Seq<char>, p: Seq<char>)
    requires
        prefix.len() > 0,
        prefix.last() == '/',
    ensures
        file_name_of(prefix + p) == file_name_of(p),
    decreases p.len(),
{
    if p.len() == 0 {
        assert(prefix + p =~= prefix);
    } else if p.last() == '/' {
        assert((prefix + p).last() == '/');
    } else {
        assert((prefix + p).last() == p.last());
        assert((prefix + p).drop_last() =~= prefix + p.drop_last());
        lemma_file_name_under_dir(prefix, p.drop_last());
    }
}

/// A path's extension, too, is unchanged by the directory it sits under.
pub proof fn lemma_extension_under_dir(prefix: Seq<char>, p: Seq<char>)
    requires
        prefix.len() > 0,
        prefix.last() == '/',
    ensures
        extension_of(prefix + p) == extension_of(p),
{
    lemma_file_name_under_dir(prefix, p);
}

} // verus!
