//! What every provider tells about itself and finds in a tree.

use vstd::prelude::*;
use crate::config::MonorepoProviderType;
use crate::error::AbundantisError;
use crate::paths::path_join;
use crate::workspace::context::{package_views, PackageInfo, PackageInfoView};
use crate::workspace::tree::{entry_views, exists_at, TreeEntry, TreeEntryView};

verus! {

/// A monorepo flavour.
pub trait MonorepoProvider {
    /// The flavour.
    spec fn kind(&self) -> MonorepoProviderType;

    /// The name of the file that marks a workspace of this flavour.
    spec fn marker(&self) -> Seq<char>;

    /// Whether the tree below `root` is a workspace of this flavour.
    spec fn detects(&self, root: Seq<char>, entries: Seq<TreeEntryView>) -> bool;

    /// The packages of the workspace below `root`.
    spec fn packages(&self, root: Seq<char>, entries: Seq<TreeEntryView>) -> Seq<PackageInfoView>;

    fn provider_type(&self) -> (r: MonorepoProviderType)
        ensures
            r == self.kind(),
    ;

    fn config_file(&self) -> (r: &'static str)
        ensures
            r@ == self.marker(),
    ;

    fn detect(&self, root: &str, entries: &Vec<TreeEntry>) -> (r: bool)
        ensures
            r == self.detects(root@, entry_views(entries@)),
    ;

    fn discover_packages(&self, root: &str, entries: &Vec<TreeEntry>) -> (r: Result<
        Vec<PackageInfo>,
        AbundantisError,
    >)
        ensures
            match r {
                Ok(found) => package_views(found@) == self.packages(root@, entry_views(entries@)),
                Err(_) => false,
            },
    ;
}

/// Whether the file that marks a flavour stands in the root.
pub open spec fn has_marker(root: Seq<char>, entries: Seq<TreeEntryView>, marker: Seq<char>) -> bool {
    exists_at(entries, path_join(root, marker))
}

/// Whether the file that marks a flavour stands in the root.
pub fn marker_exists(root: &str, entries: &Vec<TreeEntry>, marker: &str) -> (r: bool)
    ensures
        r == has_marker(root@, entry_views(entries@), marker@),
{
    let path = crate::paths::join_path(root, marker);
    crate::workspace::tree::find_entry(entries, path.as_str()).is_some()
}

} // verus!
