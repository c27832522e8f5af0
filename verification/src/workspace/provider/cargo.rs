//! The Cargo flavour.

use vstd::prelude::*;
use crate::config::MonorepoProviderType;
use crate::error::AbundantisError;
use crate::paths::{join_path, path_join, relative_path, relative_to};
use crate::text::{contains_within, has_char, opt_text, stands_within, texts};
use crate::workspace::context::{package_views, PackageInfo, PackageInfoView};
use crate::workspace::provider::document::{
    as_list, as_text, get_list, get_member, get_text, member, parse_toml, texts_among,
    texts_in_list, toml_text,
};
use crate::workspace::provider::glob::{glob_compiles, glob_is_match, glob_matches, glob_valid};
use crate::workspace::provider::pnpm::{read_or_empty, text_or_empty};
use crate::workspace::provider::traits::MonorepoProvider;
use crate::workspace::tree::{
    content_at, entry_views, exists_at, find_entry, is_walked, walked, TreeEntry, TreeEntryView,
};

verus! {

/// The directories that the walk for crates does not enter.
pub open spec fn cargo_pruned() -> Seq<Seq<char>> {
    seq!["target"@, ".git"@]
}

/// The members that a `Cargo.toml` names under `workspace.members`: the
/// texts of the list, none where there is no such list.
pub open spec fn cargo_members(content: Seq<char>) -> Seq<Seq<char>> {
    match toml_text(content) {
        Some(doc) => match member(doc, "workspace"@) {
            Some(workspace) => match member(workspace, "members"@) {
                Some(list) => match as_list(list) {
                    Some(items) => texts_among(items),
                    None => Seq::empty(),
                },
                None => Seq::empty(),
            },
            None => Seq::empty(),
        },
        None => Seq::empty(),
    }
}

/// The name that a `Cargo.toml` gives under `package.name`.
pub open spec fn cargo_name(content: Option<Seq<char>>) -> Option<Seq<char>> {
    match content {
        Some(text) => match toml_text(text) {
            Some(doc) => match member(doc, "package"@) {
                Some(package) => match member(package, "name"@) {
                    Some(name) => as_text(name),
                    None => None,
                },
                None => None,
            },
            None => None,
        },
        None => None,
    }
}

/// The members that a `Cargo.toml` names.
pub fn members_in(content: &str) -> (r: Vec<String>)
    ensures
        texts(r@) == cargo_members(content@),
{
    match parse_toml(content) {
        Some(doc) => match get_member(&doc, "workspace") {
            Some(workspace) => match get_member(&workspace, "members") {
                Some(list) => match get_list(&list) {
                    Some(items) => texts_in_list(&items),
                    None => Vec::new(),
                },
                None => Vec::new(),
            },
            None => Vec::new(),
        },
        None => Vec::new(),
    }
}

/// The name that the `Cargo.toml` of a crate gives.
pub fn extract_cargo_name(content: &Option<String>) -> (r: Option<String>)
    ensures
        opt_text(r) == cargo_name(opt_text(*content)),
{
    match content {
        Some(text) => match parse_toml(text.as_str()) {
            Some(doc) => match get_member(&doc, "package") {
                Some(package) => match get_member(&package, "name") {
                    Some(name) => get_text(&name),
                    None => None,
                },
                None => None,
            },
            None => None,
        },
        None => None,
    }
}

/// The crate in the directory `dir`.
pub open spec fn cargo_package(
    entries: Seq<TreeEntryView>,
    dir: Seq<char>,
    relative_path: Seq<char>,
) -> PackageInfoView {
    PackageInfoView {
        root: dir,
        name: cargo_name(content_at(entries, path_join(dir, "Cargo.toml"@))),
        relative_path,
    }
}

/// Whether an entry is a crate that the glob selects: a directory that the
/// walk meets, that the glob matches and that holds a `Cargo.toml`.
pub open spec fn is_cargo_package(glob: Seq<char>, entries: Seq<TreeEntryView>, e: TreeEntryView) -> bool {
    &&& is_walked(e, 3, cargo_pruned())
    &&& e.is_dir
    &&& glob_matches(glob, e.path)
    &&& exists_at(entries, path_join(e.path, "Cargo.toml"@))
}

/// The crates that the glob selects among the first `upto` entries.
pub open spec fn cargo_matching(
    root: Seq<char>,
    glob: Seq<char>,
    entries: Seq<TreeEntryView>,
    upto: int,
) -> Seq<PackageInfoView>
    decreases upto,
{
    if upto <= 0 {
        Seq::empty()
    } else if is_cargo_package(glob, entries, entries[upto - 1]) {
        cargo_matching(root, glob, entries, upto - 1).push(
            cargo_package(entries, entries[upto - 1].path, relative_to(root, entries[upto - 1].path)),
        )
    } else {
        cargo_matching(root, glob, entries, upto - 1)
    }
}

/// The crates that one member selects. A member with a `*` is a glob below
/// the root. Any other member is a directory below the root, and a crate
/// where it holds a `Cargo.toml`.
pub open spec fn cargo_for(root: Seq<char>, member: Seq<char>, entries: Seq<TreeEntryView>) -> Seq<
    PackageInfoView,
> {
    if member.contains('*') {
        if glob_valid(path_join(root, member)) {
            cargo_matching(root, path_join(root, member), entries, entries.len() as int)
        } else {
            Seq::empty()
        }
    } else if exists_at(entries, path_join(path_join(root, member), "Cargo.toml"@)) {
        seq![cargo_package(entries, path_join(root, member), member)]
    } else {
        Seq::empty()
    }
}

/// The crates that the first `upto` members select, member after member.
pub open spec fn cargo_packages(
    root: Seq<char>,
    members: Seq<Seq<char>>,
    entries: Seq<TreeEntryView>,
    upto: int,
) -> Seq<PackageInfoView>
    decreases upto,
{
    if upto <= 0 {
        Seq::empty()
    } else {
        cargo_packages(root, members, entries, upto - 1) + cargo_for(
            root,
            members[upto - 1],
            entries,
        )
    }
}

#[derive(Debug, Clone, Copy, PartialEq, Eq, Structural)]
pub struct CargoProvider {}

impl CargoProvider {
    pub fn new() -> (r: Self) {
        CargoProvider {  }
    }
}

impl Default for CargoProvider {
    fn default() -> (r: Self) {
        CargoProvider::new()
    }
}

impl MonorepoProvider for CargoProvider {
    open spec fn kind(&self) -> MonorepoProviderType {
        MonorepoProviderType::Cargo
    }

    open spec fn marker(&self) -> Seq<char> {
        "Cargo.toml"@
    }

    open spec fn detects(&self, root: Seq<char>, entries: Seq<TreeEntryView>) -> bool {
        match content_at(entries, path_join(root, "Cargo.toml"@)) {
            Some(text) => stands_within(text, "[workspace]"@),
            None => false,
        }
    }

    open spec fn packages(&self, root: Seq<char>, entries: Seq<TreeEntryView>) -> Seq<
        PackageInfoView,
    > {
        let members = cargo_members(
            text_or_empty(content_at(entries, path_join(root, "Cargo.toml"@))),
        );
        cargo_packages(root, members, entries, members.len() as int)
    }

    fn provider_type(&self) -> (r: MonorepoProviderType) {
        MonorepoProviderType::Cargo
    }

    fn config_file(&self) -> (r: &'static str) {
        "Cargo.toml"
    }

    fn detect(&self, root: &str, entries: &Vec<TreeEntry>) -> (r: bool) {
        let path = join_path(root, "Cargo.toml");
        match find_entry(entries, path.as_str()) {
            Some(at) => match &entries[at].content {
                Some(text) => contains_within(text.as_str(), "[workspace]"),
                None => false,
            },
            None => false,
        }
    }

    fn discover_packages(&self, root: &str, entries: &Vec<TreeEntry>) -> (r: Result<
        Vec<PackageInfo>,
        AbundantisError,
    >) {
        let ghost views = entry_views(entries@);
        let manifest = join_path(root, "Cargo.toml");
        let content = read_or_empty(entries, manifest.as_str());
        let members = members_in(content.as_str());
        let ghost names = texts(members@);
        let mut pruned: Vec<String> = Vec::new();
        pruned.push("target".to_owned());
        pruned.push(".git".to_owned());
        assert(texts(pruned@) =~= cargo_pruned());
        let mut packages: Vec<PackageInfo> = Vec::new();
        let mut m: usize = 0;
        proof {
            assert(package_views(packages@) =~= cargo_packages(root@, names, views, 0));
        }
        while m < members.len()
            invariant
                m <= members.len(),
                views == entry_views(entries@),
                names == texts(members@),
                texts(pruned@) == cargo_pruned(),
                package_views(packages@) == cargo_packages(root@, names, views, m as int),
            decreases members.len() - m,
        {
            let member = members[m].as_str();
            let ghost before = package_views(packages@);
            assert(names[m as int] == member@);
            if has_char(member, '*') {
                let glob = join_path(root, member);
                if glob_compiles(glob.as_str()) {
                    let mut e: usize = 0;
                    proof {
                        assert(before + cargo_matching(root@, glob@, views, 0) =~= before);
                    }
                    while e < entries.len()
                        invariant
                            e <= entries.len(),
                            views == entry_views(entries@),
                            texts(pruned@) == cargo_pruned(),
                            glob_valid(glob@),
                            package_views(packages@) == before + cargo_matching(
                                root@,
                                glob@,
                                views,
                                e as int,
                            ),
                        decreases entries.len() - e,
                    {
                        let entry = &entries[e];
                        assert(views[e as int] == entry@);
                        if walked(entry, 3, &pruned) && entry.is_dir && glob_is_match(
                            glob.as_str(),
                            entry.path.as_str(),
                        ) {
                            let inner = join_path(entry.path.as_str(), "Cargo.toml");
                            match find_entry(entries, inner.as_str()) {
                                Some(at) => {
                                    let ghost so_far = package_views(packages@);
                                    packages.push(
                                        PackageInfo {
                                            root: entry.path.clone(),
                                            name: extract_cargo_name(&entries[at].content),
                                            relative_path: relative_path(
                                                root,
                                                entry.path.as_str(),
                                            ),
                                        },
                                    );
                                    proof {
                                        assert(package_views(packages@) =~= so_far.push(
                                            cargo_package(
                                                views,
                                                entry@.path,
                                                relative_to(root@, entry@.path),
                                            ),
                                        ));
                                    }
                                },
                                None => {},
                            }
                        }
                        e += 1;
                    }
                } else {
                    proof {
                        assert(before + cargo_for(root@, member@, views) =~= before);
                    }
                }
            } else {
                let dir = join_path(root, member);
                let inner = join_path(dir.as_str(), "Cargo.toml");
                match find_entry(entries, inner.as_str()) {
                    Some(at) => {
                        packages.push(
                            PackageInfo {
                                name: extract_cargo_name(&entries[at].content),
                                relative_path: member.to_owned(),
                                root: dir,
                            },
                        );
                        proof {
                            assert(package_views(packages@) =~= before + cargo_for(
                                root@,
                                member@,
                                views,
                            ));
                        }
                    },
                    None => {
                        proof {
                            assert(before + cargo_for(root@, member@, views) =~= before);
                        }
                    },
                }
            }
            m += 1;
        }
        Ok(packages)
    }
}

} // verus!
