//! The Nx flavour: every `project.json` marks a package.

use vstd::prelude::*;
use crate::config::MonorepoProviderType;
use crate::error::AbundantisError;
use crate::paths::{parent_of, path_parent, relative_path, relative_to};
use crate::text::{str_eq, texts};
use crate::workspace::context::{package_views, PackageInfo, PackageInfoView};
use crate::workspace::provider::document::{json_name, name_in_json};
use crate::workspace::provider::traits::{has_marker, marker_exists, MonorepoProvider};
use crate::workspace::tree::{entry_views, is_walked, walked, TreeEntry, TreeEntryView};

verus! {

/// The directories that the walk for Nx projects does not enter.
pub open spec fn nx_pruned() -> Seq<Seq<char>> {
    seq!["node_modules"@, ".git"@, "dist"@, "build"@, "target"@]
}

/// Whether an entry marks an Nx project: the walk meets it and it is named
/// `project.json`.
pub open spec fn is_nx_project(e: TreeEntryView) -> bool {
    is_walked(e, 4, nx_pruned()) && e.names.len() > 0 && e.names.last() == "project.json"@
}

/// The directory of a project file: the parent of its path, or the root
/// where it has none.
pub open spec fn project_dir(root: Seq<char>, path: Seq<char>) -> Seq<char> {
    match path_parent(path) {
        Some(dir) => dir,
        None => root,
    }
}

/// The package that a project file marks.
pub open spec fn nx_package(root: Seq<char>, e: TreeEntryView) -> PackageInfoView {
    PackageInfoView {
        root: project_dir(root, e.path),
        name: json_name(e.content),
        relative_path: relative_to(root, project_dir(root, e.path)),
    }
}

/// The packages that the project files among the first `upto` entries
/// mark.
pub open spec fn nx_packages(root: Seq<char>, entries: Seq<TreeEntryView>, upto: int) -> Seq<
    PackageInfoView,
>
    decreases upto,
{
    if upto <= 0 {
        Seq::empty()
    } else if is_nx_project(entries[upto - 1]) {
        nx_packages(root, entries, upto - 1).push(nx_package(root, entries[upto - 1]))
    } else {
        nx_packages(root, entries, upto - 1)
    }
}

#[derive(Debug, Clone, Copy, PartialEq, Eq, Structural)]
pub struct NxProvider {}

impl NxProvider {
    pub fn new() -> (r: Self) {
        NxProvider {  }
    }
}

impl Default for NxProvider {
    fn default() -> (r: Self) {
        NxProvider::new()
    }
}

impl MonorepoProvider for NxProvider {
    open spec fn kind(&self) -> MonorepoProviderType {
        MonorepoProviderType::Nx
    }

    open spec fn marker(&self) -> Seq<char> {
        "nx.json"@
    }

    open spec fn detects(&self, root: Seq<char>, entries: Seq<TreeEntryView>) -> bool {
        has_marker(root, entries, "nx.json"@)
    }

    open spec fn packages(&self, root: Seq<char>, entries: Seq<TreeEntryView>) -> Seq<
        PackageInfoView,
    > {
        nx_packages(root, entries, entries.len() as int)
    }

    fn provider_type(&self) -> (r: MonorepoProviderType) {
        MonorepoProviderType::Nx
    }

    fn config_file(&self) -> (r: &'static str) {
        "nx.json"
    }

    fn detect(&self, root: &str, entries: &Vec<TreeEntry>) -> (r: bool) {
        marker_exists(root, entries, "nx.json")
    }

    fn discover_packages(&self, root: &str, entries: &Vec<TreeEntry>) -> (r: Result<
        Vec<PackageInfo>,
        AbundantisError,
    >) {
        let ghost views = entry_views(entries@);
        let mut pruned: Vec<String> = Vec::new();
        pruned.push("node_modules".to_owned());
        pruned.push(".git".to_owned());
        pruned.push("dist".to_owned());
        pruned.push("build".to_owned());
        pruned.push("target".to_owned());
        assert(texts(pruned@) =~= nx_pruned());
        let mut packages: Vec<PackageInfo> = Vec::new();
        let mut e: usize = 0;
        proof {
            assert(package_views(packages@) =~= nx_packages(root@, views, 0));
        }
        while e < entries.len()
            invariant
                e <= entries.len(),
                views == entry_views(entries@),
                texts(pruned@) == nx_pruned(),
                package_views(packages@) == nx_packages(root@, views, e as int),
            decreases entries.len() - e,
        {
            let entry = &entries[e];
            assert(views[e as int] == entry@);
            let named = entry.names.len() > 0 && str_eq(
                entry.names[entry.names.len() - 1].as_str(),
                "project.json",
            );
            proof {
                if entry.names.len() > 0 {
                    assert(texts(entry.names@).last() == entry.names@[entry.names.len() - 1]@);
                }
            }
            if named && walked(entry, 4, &pruned) {
                let dir = match parent_of(entry.path.as_str()) {
                    Some(dir) => dir,
                    None => root.to_owned(),
                };
                let ghost so_far = package_views(packages@);
                let package = PackageInfo {
                    name: name_in_json(&entry.content),
                    relative_path: relative_path(root, dir.as_str()),
                    root: dir,
                };
                packages.push(package);
                proof {
                    assert(package_views(packages@) =~= so_far.push(nx_package(root@, entry@)));
                }
            }
            e += 1;
        }
        Ok(packages)
    }
}

} // verus!
