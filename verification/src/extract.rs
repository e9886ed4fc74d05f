//! The Single-Archive Extractor's decisions: which entries the filter
//! retains, which are directory markers, and what each entry asks of the
//! filesystem. The archive decoding and the writes themselves are I/O and
//! stay outside the library; they perform exactly the actions planned here.

use vstd::prelude::*;
use vstd::string::*;
use crate::paths::join_path;
use crate::paths::resolve_output;
use crate::strings::str_ends_with;
use crate::strings::str_eq;

verus! {

/// The filter value that disables filtering: every entry is extracted.
pub open spec fn no_filter() -> Seq<char> {
    "all"@
}

/// True when the filter admits the entry: either filtering is disabled, or
/// the entry's relative path ends with the filter suffix.
pub open spec fn entry_matches(filter: Seq<char>, name: Seq<char>) -> bool {
    filter == no_filter() || filter.is_suffix_of(name)
}

/// True when the entry is a directory marker: its relative path ends with a
/// path separator.
pub open spec fn is_dir_marker(name: Seq<char>) -> bool {
    name.len() > 0 && name.last() == '/'
}

/// What one entry asks of the filesystem: nothing, a directory at the
/// resolved path, or a file at the resolved path.
pub enum ActionModel {
    Skip,
    MakeDir(Seq<char>),
    WriteFile(Seq<char>),
}

/// The step the extractor takes for one entry name under the given output
/// root and filter.
pub open spec fn plan_entry_model(root: Seq<char>, filter: Seq<char>, name: Seq<char>) -> ActionModel {
    if !entry_matches(filter, name) {
        ActionModel::Skip
    } else if is_dir_marker(name) {
        ActionModel::MakeDir(join_path(root, name))
    } else {
        ActionModel::WriteFile(join_path(root, name))
    }
}

/// The planned action for one entry, carrying the resolved output path.
pub enum EntryAction {
    Skip,
    MakeDir(String),
    WriteFile(String),
}

impl View for EntryAction {
    type V = ActionModel;

    open spec fn view(&self) -> ActionModel {
        match self {
            EntryAction::Skip => ActionModel::Skip,
            EntryAction::MakeDir(p) => ActionModel::MakeDir(p@),
            EntryAction::WriteFile(p) => ActionModel::WriteFile(p@),
        }
    }
}

/// Plans one entry: skip it, create a directory, or write a file, exactly
/// as `plan_entry_model` says.
pub fn plan_entry(root: &str, filter: &str, name: &str) -> (a: EntryAction)
    ensures
        a@ == plan_entry_model(root@, filter@, name@),
{
    let unfiltered = str_eq(filter, "all");
    if !unfiltered && !str_ends_with(name, filter) {
        return EntryAction::Skip;
    }
    let dest = resolve_output(root, name);
    let n = name.unicode_len();
    if n > 0 && name.get_char(n - 1) == '/' {
        EntryAction::MakeDir(dest)
    } else {
        EntryAction::WriteFile(dest)
    }
}

/// Plans a whole archive: one action per entry name, in the order the
/// archive yields them.
pub fn plan_archive(root: &str, filter: &str, names: &Vec<String>) -> (r: Vec<EntryAction>)
    ensures
        r@.len() == names@.len(),
        forall|i: int|
            0 <= i < names@.len() ==> r@[i]@ == plan_entry_model(root@, filter@, names@[i]@),
{
    let mut r: Vec<EntryAction> = Vec::new();
    let mut i: usize = 0;
    while i < names.len()
        invariant
            i <= names.len(),
            r@.len() == i,
            forall|j: int|
                0 <= j < i ==> r@[j]@ == plan_entry_model(root@, filter@, names@[j]@),
        decreases names.len() - i,
    {
        let a = plan_entry(root, filter, names[i].as_str());
        r.push(a);
        i += 1;
    }
    r
}

/// What the scheduler knows of one discovered archive: either it could not
/// be opened at all, or the names of its entries in order.
pub enum ArchiveListing {
    Unreadable,
    Entries(Vec<String>),
}

/// Plans a whole run, one archive at a time: an unreadable archive
/// contributes no action at all, and every other archive is planned in
/// full, unaffected by its neighbours.
pub fn plan_run(root: &str, filter: &str, archives: &Vec<ArchiveListing>) -> (r: Vec<
    Vec<EntryAction>,
>)
    ensures
        r@.len() == archives@.len(),
        forall|i: int|
            #![trigger archives@[i]]
            0 <= i < archives@.len() ==> {
                &&& (archives@[i] is Unreadable ==> r@[i]@.len() == 0)
                &&& (archives@[i] is Entries ==> {
                    let names = archives@[i]->Entries_0;
                    &&& r@[i]@.len() == names@.len()
                    &&& forall|j: int|
                        0 <= j < names@.len() ==> r@[i]@[j]@ == plan_entry_model(
                            root@,
                            filter@,
                            names@[j]@,
                        )
                })
            },
{
    let mut r: Vec<Vec<EntryAction>> = Vec::new();
    let mut i: usize = 0;
    while i < archives.len()
        invariant
            i <= archives.len(),
            r@.len() == i,
            forall|k: int|
                #![trigger archives@[k]]
                0 <= k < i ==> {
                    &&& (archives@[k] is Unreadable ==> r@[k]@.len() == 0)
                    &&& (archives@[k] is Entries ==> {
                        let names = archives@[k]->Entries_0;
                        &&& r@[k]@.len() == names@.len()
                        &&& forall|j: int|
                            0 <= j < names@.len() ==> r@[k]@[j]@ == plan_entry_model(
                                root@,
                                filter@,
                                names@[j]@,
                            )
                    })
                },
        decreases archives.len() - i,
    {
        match &archives[i] {
            ArchiveListing::Unreadable => {
                r.push(Vec::new());
            },
            ArchiveListing::Entries(names) => {
                r.push(plan_archive(root, filter, names));
            },
        }
        i += 1;
    }
    r
}

} // verus!
