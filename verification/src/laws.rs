//! What holds of every run: re-extraction changes nothing, a retained file
//! entry materializes exactly its bytes, a directory marker yields a
//! directory and tolerates repetition, the file count matches the retained
//! file entries, and a failed archive leaves its neighbours untouched.

use vstd::prelude::*;
use crate::extract::ActionModel;
use crate::extract::entry_matches;
use crate::extract::is_dir_marker;
use crate::extract::plan_entry_model;
use crate::model::EntryData;
use crate::model::FsNode;
use crate::model::apply_archive;
use crate::model::apply_entry;
use crate::model::apply_run;
use crate::model::file_entry_count;
use crate::model::file_keys;
use crate::model::fresh_output;
use crate::model::resolved_distinct;
use crate::model::resolves_some_entry;
use crate::paths::join_path;

verus! {

/// One entry commutes with a union: applying it to `fs` overlaid with `w`
/// is `fs` overlaid with the entry applied to `w`.
proof fn lemma_apply_entry_union(
    fs: Map<Seq<char>, FsNode>,
    w: Map<Seq<char>, FsNode>,
    root: Seq<char>,
    filter: Seq<char>,
    e: EntryData,
)
    ensures
        apply_entry(fs.union_prefer_right(w), root, filter, e) == fs.union_prefer_right(
            apply_entry(w, root, filter, e),
        ),
{
    match plan_entry_model(root, filter, e.name) {
        ActionModel::Skip => {},
        ActionModel::MakeDir(p) => {
            assert(fs.union_prefer_right(w).insert(p, FsNode::Dir) =~= fs.union_prefer_right(
                w.insert(p, FsNode::Dir),
            ));
        },
        ActionModel::WriteFile(p) => {
            assert(fs.union_prefer_right(w).insert(p, FsNode::File(e.data))
                =~= fs.union_prefer_right(w.insert(p, FsNode::File(e.data))));
        },
    }
}

/// An archive's effect is an overlay: what it does to `fs` is `fs` overlaid
/// with what it does to an empty tree.
proof fn lemma_apply_archive_union(
    fs: Map<Seq<char>, FsNode>,
    root: Seq<char>,
    filter: Seq<char>,
    es: Seq<EntryData>,
)
    ensures
        apply_archive(fs, root, filter, es) == fs.union_prefer_right(fresh_output(root, filter, es)),
    decreases es.len(),
{
    if es.len() == 0 {
        assert(fs.union_prefer_right(Map::<Seq<char>, FsNode>::empty()) =~= fs);
    } else {
        let dl = es.drop_last();
        let e = es.last();
        lemma_apply_archive_union(fs, root, filter, dl);
        lemma_apply_entry_union(fs, fresh_output(root, filter, dl), root, filter, e);
    }
}

/// Idempotence: extracting the same archive into the same output root a
/// second time, with the same filter, reproduces the tree the first run
/// left — every path holds the same node as before.
pub proof fn lemma_extraction_idempotent(
    fs: Map<Seq<char>, FsNode>,
    root: Seq<char>,
    filter: Seq<char>,
    es: Seq<EntryData>,
)
    ensures
        apply_archive(apply_archive(fs, root, filter, es), root, filter, es) == apply_archive(
            fs,
            root,
            filter,
            es,
        ),
{
    let w = fresh_output(root, filter, es);
    lemma_apply_archive_union(fs, root, filter, es);
    lemma_apply_archive_union(fs.union_prefer_right(w), root, filter, es);
    assert(fs.union_prefer_right(w).union_prefer_right(w) =~= fs.union_prefer_right(w));
}

/// Round trip: a retained file entry materializes a file holding exactly
/// the entry's bytes — an identity transfer.
pub proof fn lemma_round_trip(
    fs: Map<Seq<char>, FsNode>,
    root: Seq<char>,
    filter: Seq<char>,
    e: EntryData,
)
    requires
        entry_matches(filter, e.name),
        !is_dir_marker(e.name),
    ensures
        apply_entry(fs, root, filter, e).contains_key(join_path(root, e.name)),
        apply_entry(fs, root, filter, e)[join_path(root, e.name)] == FsNode::File(e.data),
{
}

/// Directory semantics: a retained directory marker yields a directory at
/// its resolved path, never a file, and applying it twice is the same as
/// applying it once.
pub proof fn lemma_dir_marker_semantics(
    fs: Map<Seq<char>, FsNode>,
    root: Seq<char>,
    filter: Seq<char>,
    e: EntryData,
)
    requires
        entry_matches(filter, e.name),
        is_dir_marker(e.name),
    ensures
        apply_entry(fs, root, filter, e).contains_key(join_path(root, e.name)),
        apply_entry(fs, root, filter, e)[join_path(root, e.name)] is Dir,
        apply_entry(apply_entry(fs, root, filter, e), root, filter, e) == apply_entry(
            fs,
            root,
            filter,
            e,
        ),
{
    let p = join_path(root, e.name);
    assert(fs.insert(p, FsNode::Dir).insert(p, FsNode::Dir) =~= fs.insert(p, FsNode::Dir));
}

/// Fault isolation: of three archives of which the second cannot be opened,
/// the first and third contribute their full extraction and the second
/// contributes nothing at all.
pub proof fn lemma_fault_isolation(
    fs: Map<Seq<char>, FsNode>,
    root: Seq<char>,
    filter: Seq<char>,
    a: Seq<EntryData>,
    c: Seq<EntryData>,
)
    ensures
        apply_run(fs, root, filter, seq![Some(a), None, Some(c)]) == apply_archive(
            apply_archive(fs, root, filter, a),
            root,
            filter,
            c,
        ),
{
    let s: Seq<Option<Seq<EntryData>>> = seq![Some(a), None, Some(c)];
    let s2: Seq<Option<Seq<EntryData>>> = seq![Some(a), None];
    let s1: Seq<Option<Seq<EntryData>>> = seq![Some(a)];
    let s0 = Seq::<Option<Seq<EntryData>>>::empty();
    assert(s.drop_last() =~= s2);
    assert(s2.drop_last() =~= s1);
    assert(s1.drop_last() =~= s0);
    assert(s.last() == Some(c));
    assert(s2.last() == Option::<Seq<EntryData>>::None);
    assert(s1.last() == Some(a));
    assert(apply_run(fs, root, filter, s0) == fs);
    assert(apply_run(fs, root, filter, s1) == apply_archive(fs, root, filter, a));
    assert(apply_run(fs, root, filter, s2) == apply_archive(fs, root, filter, a));
    assert(apply_run(fs, root, filter, s) == apply_archive(
        apply_archive(fs, root, filter, a),
        root,
        filter,
        c,
    ));
}

/// The walk behind the file count: under a fresh root, with the retained
/// entries resolving to pairwise distinct paths, the tree an archive
/// materializes has finitely many keys, every key is the resolved path of
/// some retained entry, and the paths holding files number exactly the
/// retained file entries.
proof fn lemma_fresh_output_shape(root: Seq<char>, filter: Seq<char>, es: Seq<EntryData>)
    requires
        resolved_distinct(root, filter, es),
    ensures
        fresh_output(root, filter, es).dom().finite(),
        forall|k: Seq<char>| #[trigger]
            fresh_output(root, filter, es).dom().contains(k) ==> resolves_some_entry(
                root,
                filter,
                es,
                k,
            ),
        file_keys(fresh_output(root, filter, es)).finite(),
        file_keys(fresh_output(root, filter, es)).len() == file_entry_count(filter, es),
    decreases es.len(),
{
    let m = fresh_output(root, filter, es);
    if es.len() == 0 {
        assert(m.dom() =~= Set::<Seq<char>>::empty());
        assert(file_keys(m) =~= Set::<Seq<char>>::empty());
        assert(Set::<Seq<char>>::empty().len() == 0);
    } else {
        let dl = es.drop_last();
        let e = es.last();
        assert(resolved_distinct(root, filter, dl)) by {
            assert forall|i: int, j: int|
                0 <= i < j < dl.len() && entry_matches(filter, dl[i].name) && entry_matches(
                    filter,
                    dl[j].name,
                ) implies join_path(root, dl[i].name) != join_path(root, dl[j].name) by {
                assert(dl[i] == es[i]);
                assert(dl[j] == es[j]);
            }
        }
        lemma_fresh_output_shape(root, filter, dl);
        let prev = fresh_output(root, filter, dl);
        assert(m == apply_entry(prev, root, filter, e));
        assert(es[es.len() - 1] == e);
        match plan_entry_model(root, filter, e.name) {
            ActionModel::Skip => {
                assert(m == prev);
                assert forall|k: Seq<char>| #[trigger]
                    m.dom().contains(k) implies resolves_some_entry(root, filter, es, k) by {
                    let i = choose|i: int|
                        0 <= i < dl.len() && entry_matches(filter, dl[i].name) && k == join_path(
                            root,
                            dl[i].name,
                        );
                    assert(dl[i] == es[i]);
                }
            },
            ActionModel::MakeDir(p) => {
                assert(p == join_path(root, e.name));
                assert(!prev.dom().contains(p)) by {
                    if prev.dom().contains(p) {
                        let i = choose|i: int|
                            0 <= i < dl.len() && entry_matches(filter, dl[i].name) && p
                                == join_path(root, dl[i].name);
                        assert(dl[i] == es[i]);
                        assert(false);
                    }
                }
                assert(m == prev.insert(p, FsNode::Dir));
                assert(file_keys(m) =~= file_keys(prev));
                assert forall|k: Seq<char>| #[trigger]
                    m.dom().contains(k) implies resolves_some_entry(root, filter, es, k) by {
                    if k == p {
                        assert(entry_matches(filter, es[es.len() - 1].name) && k == join_path(
                            root,
                            es[es.len() - 1].name,
                        ));
                    } else {
                        let i = choose|i: int|
                            0 <= i < dl.len() && entry_matches(filter, dl[i].name) && k
                                == join_path(root, dl[i].name);
                        assert(dl[i] == es[i]);
                    }
                }
            },
            ActionModel::WriteFile(p) => {
                assert(p == join_path(root, e.name));
                assert(!prev.dom().contains(p)) by {
                    if prev.dom().contains(p) {
                        let i = choose|i: int|
                            0 <= i < dl.len() && entry_matches(filter, dl[i].name) && p
                                == join_path(root, dl[i].name);
                        assert(dl[i] == es[i]);
                        assert(false);
                    }
                }
                assert(m == prev.insert(p, FsNode::File(e.data)));
                assert(!file_keys(prev).contains(p));
                assert(file_keys(m) =~= file_keys(prev).insert(p));
                assert(file_keys(m).len() == file_keys(prev).len() + 1);
                assert forall|k: Seq<char>| #[trigger]
                    m.dom().contains(k) implies resolves_some_entry(root, filter, es, k) by {
                    if k == p {
                        assert(entry_matches(filter, es[es.len() - 1].name) && k == join_path(
                            root,
                            es[es.len() - 1].name,
                        ));
                    } else {
                        let i = choose|i: int|
                            0 <= i < dl.len() && entry_matches(filter, dl[i].name) && k
                                == join_path(root, dl[i].name);
                        assert(dl[i] == es[i]);
                    }
                }
            },
        }
    }
}

/// File count: under a fresh output root, with the retained entries
/// resolving to pairwise distinct paths, the number of files materialized
/// equals the number of retained non-directory entries.
pub proof fn lemma_file_count(root: Seq<char>, filter: Seq<char>, es: Seq<EntryData>)
    requires
        resolved_distinct(root, filter, es),
    ensures
        file_keys(fresh_output(root, filter, es)).finite(),
        file_keys(fresh_output(root, filter, es)).len() == file_entry_count(filter, es),
{
    lemma_fresh_output_shape(root, filter, es);
}

} // verus!
