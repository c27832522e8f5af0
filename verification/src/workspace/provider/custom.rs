//! The flavour whose package roots the configuration names.

use vstd::prelude::*;
use crate::config::MonorepoProviderType;
use crate::error::AbundantisError;
use crate::paths::{join_path, path_join, relative_path, relative_to};
use crate::text::{str_eq, texts};
use crate::workspace::context::{package_views, PackageInfo, PackageInfoView};
use crate::workspace::provider::glob::{glob_compiles, glob_is_match, glob_matches, glob_valid};
use crate::workspace::provider::traits::MonorepoProvider;
use crate::workspace::tree::{entry_views, is_walked, walked, TreeEntry, TreeEntryView};

verus! {

/// The directories that the walk for configured roots does not enter.
pub open spec fn custom_pruned() -> Seq<Seq<char>> {
    seq!["node_modules"@, ".git"@, "target"@, "dist"@]
}

/// The package that a matched directory is.
pub open spec fn custom_package(root: Seq<char>, e: TreeEntryView) -> PackageInfoView {
    PackageInfoView { root: e.path, name: None, relative_path: relative_to(root, e.path) }
}

/// Whether an entry is a directory that the walk meets and the glob
/// matches.
pub open spec fn is_custom_package(glob: Seq<char>, e: TreeEntryView) -> bool {
    is_walked(e, 4, custom_pruned()) && e.is_dir && glob_matches(glob, e.path)
}

/// The packages that the glob selects among the first `upto` entries.
pub open spec fn custom_matching(
    root: Seq<char>,
    glob: Seq<char>,
    entries: Seq<TreeEntryView>,
    upto: int,
) -> Seq<PackageInfoView>
    decreases upto,
{
    if upto <= 0 {
        Seq::empty()
    } else if is_custom_package(glob, entries[upto - 1]) {
        custom_matching(root, glob, entries, upto - 1).push(custom_package(root, entries[upto - 1]))
    } else {
        custom_matching(root, glob, entries, upto - 1)
    }
}

/// The packages that one pattern selects: the root itself for `.`, else
/// the directories that the pattern, put below the root, matches as a glob.
pub open spec fn custom_for(root: Seq<char>, pattern: Seq<char>, entries: Seq<TreeEntryView>) -> Seq<
    PackageInfoView,
> {
    if pattern == "."@ {
        seq![PackageInfoView { root, name: None, relative_path: "."@ }]
    } else if glob_valid(path_join(root, pattern)) {
        custom_matching(root, path_join(root, pattern), entries, entries.len() as int)
    } else {
        Seq::empty()
    }
}

/// The packages that the first `upto` patterns select, pattern after
/// pattern.
pub open spec fn custom_packages(
    root: Seq<char>,
    patterns: Seq<Seq<char>>,
    entries: Seq<TreeEntryView>,
    upto: int,
) -> Seq<PackageInfoView>
    decreases upto,
{
    if upto <= 0 {
        Seq::empty()
    } else {
        custom_packages(root, patterns, entries, upto - 1) + custom_for(
            root,
            patterns[upto - 1],
            entries,
        )
    }
}

#[derive(Debug)]
pub struct CustomProvider {
    patterns: Vec<String>,
}

impl CustomProvider {
    /// The patterns that name the package roots.
    pub closed spec fn patterns(&self) -> Seq<Seq<char>> {
        texts(self.patterns@)
    }

    pub fn new(patterns: Vec<String>) -> (r: Self)
        ensures
            r.patterns() == texts(patterns@),
    {
        CustomProvider { patterns }
    }
}

impl MonorepoProvider for CustomProvider {
    open spec fn kind(&self) -> MonorepoProviderType {
        MonorepoProviderType::Custom
    }

    open spec fn marker(&self) -> Seq<char> {
        ".ecolog.toml"@
    }

    open spec fn detects(&self, root: Seq<char>, entries: Seq<TreeEntryView>) -> bool {
        true
    }

    open spec fn packages(&self, root: Seq<char>, entries: Seq<TreeEntryView>) -> Seq<
        PackageInfoView,
    > {
        custom_packages(root, self.patterns(), entries, self.patterns().len() as int)
    }

    fn provider_type(&self) -> (r: MonorepoProviderType) {
        MonorepoProviderType::Custom
    }

    fn config_file(&self) -> (r: &'static str) {
        ".ecolog.toml"
    }

    fn detect(&self, _root: &str, _entries: &Vec<TreeEntry>) -> (r: bool) {
        true
    }

    fn discover_packages(&self, root: &str, entries: &Vec<TreeEntry>) -> (r: Result<
        Vec<PackageInfo>,
        AbundantisError,
    >) {
        let ghost views = entry_views(entries@);
        let ghost patterns = texts(self.patterns@);
        let mut pruned: Vec<String> = Vec::new();
        pruned.push("node_modules".to_owned());
        pruned.push(".git".to_owned());
        pruned.push("target".to_owned());
        pruned.push("dist".to_owned());
        assert(texts(pruned@) =~= custom_pruned());
        let mut packages: Vec<PackageInfo> = Vec::new();
        let mut p: usize = 0;
        proof {
            assert(package_views(packages@) =~= custom_packages(root@, patterns, views, 0));
        }
        while p < self.patterns.len()
            invariant
                p <= self.patterns.len(),
                views == entry_views(entries@),
                patterns == texts(self.patterns@),
                texts(pruned@) == custom_pruned(),
                package_views(packages@) == custom_packages(root@, patterns, views, p as int),
            decreases self.patterns.len() - p,
        {
            let pattern = self.patterns[p].as_str();
            let ghost before = package_views(packages@);
            assert(patterns[p as int] == pattern@);
            if str_eq(pattern, ".") {
                packages.push(
                    PackageInfo { root: root.to_owned(), name: None, relative_path: ".".to_owned() },
                );
                proof {
                    assert(package_views(packages@) =~= before + custom_for(
                        root@,
                        pattern@,
                        views,
                    ));
                }
            } else {
                let glob = join_path(root, pattern);
                if glob_compiles(glob.as_str()) {
                    let mut e: usize = 0;
                    proof {
                        assert(before + custom_matching(root@, glob@, views, 0) =~= before);
                    }
                    while e < entries.len()
                        invariant
                            e <= entries.len(),
                            views == entry_views(entries@),
                            texts(pruned@) == custom_pruned(),
                            glob_valid(glob@),
                            package_views(packages@) == before + custom_matching(
                                root@,
                                glob@,
                                views,
                                e as int,
                            ),
                        decreases entries.len() - e,
                    {
                        let entry = &entries[e];
                        assert(views[e as int] == entry@);
                        if walked(entry, 4, &pruned) && entry.is_dir && glob_is_match(
                            glob.as_str(),
                            entry.path.as_str(),
                        ) {
                            let ghost so_far = package_views(packages@);
                            packages.push(
                                PackageInfo {
                                    root: entry.path.clone(),
                                    name: None,
                                    relative_path: relative_path(root, entry.path.as_str()),
                                },
                            );
                            proof {
                                assert(package_views(packages@) =~= so_far.push(
                                    custom_package(root@, entry@),
                                ));
                            }
                        }
                        e += 1;
                    }
                } else {
                    proof {
                        assert(before + custom_for(root@, pattern@, views) =~= before);
                    }
                }
            }
            p += 1;
        }
        Ok(packages)
    }
}

} // verus!
