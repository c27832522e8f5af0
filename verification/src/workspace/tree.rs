//! What the caller has seen of the files below a workspace root.

use vstd::prelude::*;
use crate::text::{contains_text, opt_text, str_eq, texts};

verus! {

/// One file or directory below the root, as a walk of the tree meets it.
#[derive(Debug)]
pub struct TreeEntry {
    /// The path of the entry.
    pub path: String,
    /// The file names of the root, of the directories between the root and
    /// the entry, and of the entry, in this order.
    pub names: Vec<String>,
    /// The number of steps from the root to the entry.
    pub depth: usize,
    pub is_dir: bool,
    /// The text of the entry, where it is a file that was read.
    pub content: Option<String>,
}

pub struct TreeEntryView {
    pub path: Seq<char>,
    pub names: Seq<Seq<char>>,
    pub depth: usize,
    pub is_dir: bool,
    pub content: Option<Seq<char>>,
}

impl View for TreeEntry {
    type V = TreeEntryView;

    open spec fn view(&self) -> TreeEntryView {
        TreeEntryView {
            path: self.path@,
            names: texts(self.names@),
            depth: self.depth,
            is_dir: self.is_dir,
            content: opt_text(self.content),
        }
    }
}

pub open spec fn entry_views(v: Seq<TreeEntry>) -> Seq<TreeEntryView> {
    Seq::new(v.len(), |i: int| v[i]@)
}

/// Whether the walk leaves an entry out because one of its names is among
/// the names that are not entered.
pub open spec fn is_pruned(names: Seq<Seq<char>>, pruned: Seq<Seq<char>>) -> bool {
    exists|i: int| 0 <= i < names.len() && pruned.contains(#[trigger] names[i])
}

/// Whether a walk to the depth `max_depth` that does not enter `pruned`
/// meets the entry.
pub open spec fn is_walked(e: TreeEntryView, max_depth: nat, pruned: Seq<Seq<char>>) -> bool {
    e.depth <= max_depth && !is_pruned(e.names, pruned)
}

/// Whether something exists at `path`.
pub open spec fn exists_at(entries: Seq<TreeEntryView>, path: Seq<char>) -> bool {
    exists|i: int| 0 <= i < entries.len() && (#[trigger] entries[i]).path == path
}

/// Whether `i` is the first entry with the path.
pub open spec fn is_first_entry_at(entries: Seq<TreeEntryView>, path: Seq<char>, i: int) -> bool {
    &&& 0 <= i < entries.len()
    &&& entries[i].path == path
    &&& forall|j: int| 0 <= j < i ==> (#[trigger] entries[j]).path != path
}

/// The text of the file at `path`, where it exists and was read.
pub open spec fn content_at(entries: Seq<TreeEntryView>, path: Seq<char>) -> Option<Seq<char>> {
    if exists_at(entries, path) {
        entries[choose|i: int| is_first_entry_at(entries, path, i)].content
    } else {
        None
    }
}

/// The first entry with the path.
pub fn find_entry(entries: &Vec<TreeEntry>, path: &str) -> (r: Option<usize>)
    ensures
        match r {
            Some(i) => i < entries@.len() && exists_at(entry_views(entries@), path@) && content_at(
                entry_views(entries@),
                path@,
            ) == opt_text(entries@[i as int].content),
            None => !exists_at(entry_views(entries@), path@) && content_at(
                entry_views(entries@),
                path@,
            ) is None,
        },
{
    let ghost views = entry_views(entries@);
    let mut i: usize = 0;
    while i < entries.len()
        invariant
            i <= entries.len(),
            views == entry_views(entries@),
            forall|j: int| 0 <= j < i ==> (#[trigger] views[j]).path != path@,
        decreases entries.len() - i,
    {
        if str_eq(entries[i].path.as_str(), path) {
            proof {
                assert(views[i as int].path == path@);
                assert(is_first_entry_at(views, path@, i as int));
                let c = choose|c: int| is_first_entry_at(views, path@, c);
                if c < i {
                    assert(views[c].path != path@);
                }
                if i < c {
                    assert(views[i as int].path != path@);
                }
            }
            return Some(i);
        }
        i += 1;
    }
    None
}

/// Whether a walk to the depth `max_depth` that does not enter `pruned`
/// meets the entry.
pub fn walked(entry: &TreeEntry, max_depth: usize, pruned: &Vec<String>) -> (r: bool)
    ensures
        r == is_walked(entry@, max_depth as nat, texts(pruned@)),
{
    if entry.depth > max_depth {
        return false;
    }
    let ghost names = texts(entry.names@);
    let mut i: usize = 0;
    while i < entry.names.len()
        invariant
            i <= entry.names.len(),
            names == texts(entry.names@),
            forall|j: int| 0 <= j < i ==> !texts(pruned@).contains(#[trigger] names[j]),
        decreases entry.names.len() - i,
    {
        if contains_text(pruned, entry.names[i].as_str()) {
            assert(texts(pruned@).contains(names[i as int]));
            return false;
        }
        i += 1;
    }
    true
}

} // verus!
