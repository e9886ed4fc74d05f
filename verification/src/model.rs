//! A model of what a run materializes: the output tree as a map from
//! resolved path to the node written there. Ancestor directories that a
//! write creates on the way are not tracked; a key is a path some entry
//! resolved to. The model follows `plan_entry_model`, so what it says holds
//! of exactly the actions the planner hands out.

use vstd::prelude::*;
use crate::extract::ActionModel;
use crate::extract::entry_matches;
use crate::extract::is_dir_marker;
use crate::extract::plan_entry_model;

verus! {

/// A node the extractor can materialize under the output root.
pub enum FsNode {
    Dir,
    File(Seq<u8>),
}

/// One archive entry as a value: its relative path and, for a file entry,
/// its byte content.
pub struct EntryData {
    pub name: Seq<char>,
    pub data: Seq<u8>,
}

/// The output tree after one entry is processed: unchanged for a skipped
/// entry, a directory for a retained directory marker, and a file holding
/// exactly the entry's bytes for a retained file entry.
pub open spec fn apply_entry(
    fs: Map<Seq<char>, FsNode>,
    root: Seq<char>,
    filter: Seq<char>,
    e: EntryData,
) -> Map<Seq<char>, FsNode> {
    match plan_entry_model(root, filter, e.name) {
        ActionModel::Skip => fs,
        ActionModel::MakeDir(p) => fs.insert(p, FsNode::Dir),
        ActionModel::WriteFile(p) => fs.insert(p, FsNode::File(e.data)),
    }
}

/// The output tree after one archive is processed, its entries applied in
/// the order the archive yields them.
pub open spec fn apply_archive(
    fs: Map<Seq<char>, FsNode>,
    root: Seq<char>,
    filter: Seq<char>,
    es: Seq<EntryData>,
) -> Map<Seq<char>, FsNode>
    decreases es.len(),
{
    if es.len() == 0 {
        fs
    } else {
        apply_entry(apply_archive(fs, root, filter, es.drop_last()), root, filter, es.last())
    }
}

/// The output tree after a whole run: each discovered archive in turn,
/// where an archive that could not be opened contributes nothing.
pub open spec fn apply_run(
    fs: Map<Seq<char>, FsNode>,
    root: Seq<char>,
    filter: Seq<char>,
    archives: Seq<Option<Seq<EntryData>>>,
) -> Map<Seq<char>, FsNode>
    decreases archives.len(),
{
    if archives.len() == 0 {
        fs
    } else {
        let prev = apply_run(fs, root, filter, archives.drop_last());
        match archives.last() {
            None => prev,
            Some(es) => apply_archive(prev, root, filter, es),
        }
    }
}

/// The number of entries the filter retains that are file entries, not
/// directory markers.
pub open spec fn file_entry_count(filter: Seq<char>, es: Seq<EntryData>) -> nat
    decreases es.len(),
{
    if es.len() == 0 {
        0
    } else {
        file_entry_count(filter, es.drop_last()) + if entry_matches(filter, es.last().name)
            && !is_dir_marker(es.last().name) {
            1nat
        } else {
            0nat
        }
    }
}

/// True when no two retained entries of the archive resolve to the same
/// output path.
pub open spec fn resolved_distinct(root: Seq<char>, filter: Seq<char>, es: Seq<EntryData>) -> bool {
    forall|i: int, j: int|
        0 <= i < j < es.len() && entry_matches(filter, es[i].name) && entry_matches(
            filter,
            es[j].name,
        ) ==> crate::paths::join_path(root, es[i].name) != crate::paths::join_path(
            root,
            es[j].name,
        )
}

/// The output tree an archive materializes under a fresh output root.
pub open spec fn fresh_output(root: Seq<char>, filter: Seq<char>, es: Seq<EntryData>) -> Map<
    Seq<char>,
    FsNode,
> {
    apply_archive(Map::empty(), root, filter, es)
}

/// True when `k` is the resolved path of some retained entry of the
/// archive.
pub open spec fn resolves_some_entry(
    root: Seq<char>,
    filter: Seq<char>,
    es: Seq<EntryData>,
    k: Seq<char>,
) -> bool {
    exists|i: int|
        0 <= i < es.len() && entry_matches(filter, es[i].name) && k == crate::paths::join_path(
            root,
            es[i].name,
        )
}

/// The paths holding files in an output tree.
pub open spec fn file_keys(m: Map<Seq<char>, FsNode>) -> Set<Seq<char>> {
    m.dom().filter(|k: Seq<char>| m[k] is File)
}

} // verus!
