//! The pnpm flavour, and the expansion of package patterns that the
//! JavaScript flavours share.

use vstd::prelude::*;
use crate::config::MonorepoProviderType;
use crate::error::AbundantisError;
use crate::paths::{join_path, path_join, relative_path, relative_to};
use crate::text::{strip_prefix, texts};
use crate::workspace::context::{package_views, PackageInfo, PackageInfoView};
use crate::workspace::provider::document::{
    all_texts, as_list, get_list, get_member, json_name, list_of_texts, member, name_in_json,
    parse_yaml, yaml_text, Json,
};
use crate::workspace::provider::glob::{glob_compiles, glob_is_match, glob_matches, glob_valid};
use crate::workspace::provider::traits::{has_marker, marker_exists, MonorepoProvider};
use crate::workspace::tree::{
    content_at, entry_views, exists_at, find_entry, is_walked, walked, TreeEntry, TreeEntryView,
};

verus! {

/// The directories that the walk for JavaScript packages does not enter.
pub open spec fn js_pruned() -> Seq<Seq<char>> {
    seq!["node_modules"@, ".git"@, "dist"@]
}

/// The patterns that do not begin with `!`, in order.
pub open spec fn inclusions(patterns: Seq<Seq<char>>) -> Seq<Seq<char>>
    decreases patterns.len(),
{
    if patterns.len() == 0 {
        Seq::empty()
    } else if "!"@.is_prefix_of(patterns.last()) {
        inclusions(patterns.drop_last())
    } else {
        inclusions(patterns.drop_last()).push(patterns.last())
    }
}

/// The globs of the patterns that begin with `!`, each put below the root,
/// as far as they are globs.
pub open spec fn exclusions(root: Seq<char>, patterns: Seq<Seq<char>>) -> Seq<Seq<char>>
    decreases patterns.len(),
{
    if patterns.len() == 0 {
        Seq::empty()
    } else if "!"@.is_prefix_of(patterns.last()) && glob_valid(
        path_join(root, patterns.last().skip(1)),
    ) {
        exclusions(root, patterns.drop_last()).push(path_join(root, patterns.last().skip(1)))
    } else {
        exclusions(root, patterns.drop_last())
    }
}

/// Whether one of the globs matches the path.
pub open spec fn is_excluded(excluded: Seq<Seq<char>>, path: Seq<char>) -> bool {
    exists|i: int| 0 <= i < excluded.len() && glob_matches(#[trigger] excluded[i], path)
}

/// The package that a directory with a `package.json` is.
pub open spec fn js_package(
    root: Seq<char>,
    entries: Seq<TreeEntryView>,
    e: TreeEntryView,
) -> PackageInfoView {
    PackageInfoView {
        root: e.path,
        name: json_name(content_at(entries, path_join(e.path, "package.json"@))),
        relative_path: relative_to(root, e.path),
    }
}

/// Whether an entry is a package that the glob selects: a directory that
/// the walk meets, that the glob matches, that is not excluded and that
/// holds a `package.json`.
pub open spec fn is_js_package(
    glob: Seq<char>,
    excluded: Seq<Seq<char>>,
    entries: Seq<TreeEntryView>,
    e: TreeEntryView,
) -> bool {
    &&& is_walked(e, 3, js_pruned())
    &&& e.is_dir
    &&& glob_matches(glob, e.path)
    &&& !is_excluded(excluded, e.path)
    &&& exists_at(entries, path_join(e.path, "package.json"@))
}

/// The packages that the glob selects among the first `upto` entries.
pub open spec fn packages_matching(
    root: Seq<char>,
    glob: Seq<char>,
    excluded: Seq<Seq<char>>,
    entries: Seq<TreeEntryView>,
    upto: int,
) -> Seq<PackageInfoView>
    decreases upto,
{
    if upto <= 0 {
        Seq::empty()
    } else if is_js_package(glob, excluded, entries, entries[upto - 1]) {
        packages_matching(root, glob, excluded, entries, upto - 1).push(
            js_package(root, entries, entries[upto - 1]),
        )
    } else {
        packages_matching(root, glob, excluded, entries, upto - 1)
    }
}

/// The packages that the first `upto` of the patterns select, pattern after
/// pattern. A pattern that is no glob selects nothing.
pub open spec fn expanded(
    root: Seq<char>,
    included: Seq<Seq<char>>,
    excluded: Seq<Seq<char>>,
    entries: Seq<TreeEntryView>,
    upto: int,
) -> Seq<PackageInfoView>
    decreases upto,
{
    if upto <= 0 {
        Seq::empty()
    } else if glob_valid(path_join(root, included[upto - 1])) {
        expanded(root, included, excluded, entries, upto - 1) + packages_matching(
            root,
            path_join(root, included[upto - 1]),
            excluded,
            entries,
            entries.len() as int,
        )
    } else {
        expanded(root, included, excluded, entries, upto - 1)
    }
}

/// The packages that package patterns select below `root`.
pub open spec fn expanded_packages(
    root: Seq<char>,
    patterns: Seq<Seq<char>>,
    entries: Seq<TreeEntryView>,
) -> Seq<PackageInfoView> {
    expanded(
        root,
        inclusions(patterns),
        exclusions(root, patterns),
        entries,
        inclusions(patterns).len() as int,
    )
}

/// Whether one of the globs, all of which are valid, matches the path.
fn excluded_by(excluded: &Vec<String>, path: &str) -> (r: bool)
    requires
        forall|i: int| 0 <= i < excluded@.len() ==> glob_valid(#[trigger] texts(excluded@)[i]),
    ensures
        r == is_excluded(texts(excluded@), path@),
{
    let ghost globs = texts(excluded@);
    let mut i: usize = 0;
    while i < excluded.len()
        invariant
            i <= excluded.len(),
            globs == texts(excluded@),
            forall|k: int| 0 <= k < excluded@.len() ==> glob_valid(#[trigger] globs[k]),
            forall|k: int| 0 <= k < i ==> !glob_matches(#[trigger] globs[k], path@),
        decreases excluded.len() - i,
    {
        assert(globs[i as int] == excluded@[i as int]@);
        if glob_is_match(excluded[i].as_str(), path) {
            return true;
        }
        i += 1;
    }
    false
}

/// The packages that package patterns select below `root`: patterns that
/// begin with `!` exclude, the others include. The directories that the
/// walk meets down to the third level, that an including pattern matches
/// and no excluding one, and that hold a `package.json`, are the packages.
pub fn expand_package_patterns(root: &str, patterns: &Vec<String>, entries: &Vec<TreeEntry>) -> (r:
    Result<Vec<PackageInfo>, AbundantisError>)
    ensures
        match r {
            Ok(found) => package_views(found@) == expanded_packages(
                root@,
                texts(patterns@),
                entry_views(entries@),
            ),
            Err(_) => false,
        },
{
    let ghost all = texts(patterns@);
    let ghost views = entry_views(entries@);
    let mut pruned: Vec<String> = Vec::new();
    pruned.push("node_modules".to_owned());
    pruned.push(".git".to_owned());
    pruned.push("dist".to_owned());
    assert(texts(pruned@) =~= js_pruned());
    let mut excluded: Vec<String> = Vec::new();
    let mut included: Vec<String> = Vec::new();
    let mut i: usize = 0;
    proof {
        assert(all.take(0) =~= Seq::<Seq<char>>::empty());
        assert(texts(excluded@) =~= exclusions(root@, all.take(0)));
        assert(texts(included@) =~= inclusions(all.take(0)));
        reveal_strlit("!");
    }
    while i < patterns.len()
        invariant
            i <= patterns.len(),
            all == texts(patterns@),
            "!"@.len() == 1,
            texts(excluded@) == exclusions(root@, all.take(i as int)),
            texts(included@) == inclusions(all.take(i as int)),
            forall|k: int| 0 <= k < excluded@.len() ==> glob_valid(#[trigger] texts(excluded@)[k]),
        decreases patterns.len() - i,
    {
        proof {
            assert(all.take(i + 1).drop_last() =~= all.take(i as int));
            assert(all.take(i + 1).last() == patterns@[i as int]@);
        }
        match strip_prefix(patterns[i].as_str(), "!") {
            Some(rest) => {
                let glob = join_path(root, rest.as_str());
                if glob_compiles(glob.as_str()) {
                    let ghost before = texts(excluded@);
                    excluded.push(glob);
                    proof {
                        assert(texts(excluded@) =~= before.push(glob@));
                        assert forall|k: int| 0 <= k < excluded@.len() implies glob_valid(
                            #[trigger] texts(excluded@)[k],
                        ) by {
                            if k < before.len() {
                                assert(texts(excluded@)[k] == before[k]);
                            }
                        }
                    }
                }
            },
            None => {
                let ghost before = texts(included@);
                included.push(patterns[i].clone());
                assert(texts(included@) =~= before.push(patterns@[i as int]@));
            },
        }
        i += 1;
    }
    proof {
        assert(all.take(patterns.len() as int) =~= all);
    }
    let ghost inc = texts(included@);
    let ghost exc = texts(excluded@);
    let mut packages: Vec<PackageInfo> = Vec::new();
    let mut p: usize = 0;
    proof {
        assert(package_views(packages@) =~= expanded(root@, inc, exc, views, 0));
    }
    while p < included.len()
        invariant
            p <= included.len(),
            inc == texts(included@),
            exc == texts(excluded@),
            views == entry_views(entries@),
            texts(pruned@) == js_pruned(),
            forall|k: int| 0 <= k < excluded@.len() ==> glob_valid(#[trigger] texts(excluded@)[k]),
            package_views(packages@) == expanded(root@, inc, exc, views, p as int),
        decreases included.len() - p,
    {
        let glob = join_path(root, included[p].as_str());
        assert(inc[p as int] == included@[p as int]@);
        if glob_compiles(glob.as_str()) {
            let ghost before = package_views(packages@);
            let mut e: usize = 0;
            proof {
                assert(before + packages_matching(root@, glob@, exc, views, 0) =~= before);
            }
            while e < entries.len()
                invariant
                    e <= entries.len(),
                    exc == texts(excluded@),
                    views == entry_views(entries@),
                    texts(pruned@) == js_pruned(),
                    glob_valid(glob@),
                    forall|k: int|
                        0 <= k < excluded@.len() ==> glob_valid(#[trigger] texts(excluded@)[k]),
                    package_views(packages@) == before + packages_matching(
                        root@,
                        glob@,
                        exc,
                        views,
                        e as int,
                    ),
                decreases entries.len() - e,
            {
                let entry = &entries[e];
                assert(views[e as int] == entry@);
                if walked(entry, 3, &pruned) && entry.is_dir && glob_is_match(
                    glob.as_str(),
                    entry.path.as_str(),
                ) && !excluded_by(&excluded, entry.path.as_str()) {
                    let manifest = join_path(entry.path.as_str(), "package.json");
                    match find_entry(entries, manifest.as_str()) {
                        Some(at) => {
                            let ghost so_far = package_views(packages@);
                            let package = PackageInfo {
                                root: entry.path.clone(),
                                name: name_in_json(&entries[at].content),
                                relative_path: relative_path(root, entry.path.as_str()),
                            };
                            packages.push(package);
                            proof {
                                assert(package_views(packages@) =~= so_far.push(
                                    js_package(root@, views, entry@),
                                ));
                            }
                        },
                        None => {},
                    }
                }
                e += 1;
            }
        }
        p += 1;
    }
    Ok(packages)
}

/// The package patterns that a `pnpm-workspace.yaml` names: those under
/// `packages`, none where the key is missing, and `packages/*` where the
/// text is no such document.
pub open spec fn pnpm_patterns(content: Seq<char>) -> Seq<Seq<char>> {
    match yaml_text(content) {
        Some(Json::Object(m)) => match member(Json::Object(m), "packages"@) {
            Some(list) => match as_list(list) {
                Some(items) => match all_texts(items) {
                    Some(patterns) => patterns,
                    None => seq!["packages/*"@],
                },
                None => seq!["packages/*"@],
            },
            None => Seq::empty(),
        },
        _ => seq!["packages/*"@],
    }
}

/// The text of a file, or the empty text where it was not read.
pub open spec fn text_or_empty(content: Option<Seq<char>>) -> Seq<char> {
    match content {
        Some(text) => text,
        None => Seq::empty(),
    }
}

/// The text of the file at `path`, or the empty text.
pub fn read_or_empty(entries: &Vec<TreeEntry>, path: &str) -> (r: String)
    ensures
        r@ == text_or_empty(content_at(entry_views(entries@), path@)),
{
    match find_entry(entries, path) {
        Some(at) => match &entries[at].content {
            Some(text) => text.clone(),
            None => String::new(),
        },
        None => String::new(),
    }
}

/// A list with the one pattern `packages/*`.
pub fn default_packages() -> (r: Vec<String>)
    ensures
        texts(r@) == seq!["packages/*"@],
{
    let mut v: Vec<String> = Vec::new();
    v.push("packages/*".to_owned());
    assert(texts(v@) =~= seq!["packages/*"@]);
    v
}

/// The package patterns that a `pnpm-workspace.yaml` names.
pub fn patterns_in_pnpm(content: &str) -> (r: Vec<String>)
    ensures
        texts(r@) == pnpm_patterns(content@),
{
    let doc = match parse_yaml(content) {
        Some(doc) => doc,
        None => {
            return default_packages();
        },
    };
    if !crate::workspace::provider::document::is_object(&doc) {
        return default_packages();
    }
    match get_member(&doc, "packages") {
        Some(list) => match get_list(&list) {
            Some(items) => match list_of_texts(&items) {
                Some(patterns) => patterns,
                None => default_packages(),
            },
            None => default_packages(),
        },
        None => Vec::new(),
    }
}

#[derive(Debug, Clone, Copy, PartialEq, Eq, Structural)]
pub struct PnpmProvider {}

impl PnpmProvider {
    pub fn new() -> (r: Self) {
        PnpmProvider {  }
    }
}

impl Default for PnpmProvider {
    fn default() -> (r: Self) {
        PnpmProvider::new()
    }
}

impl MonorepoProvider for PnpmProvider {
    open spec fn kind(&self) -> MonorepoProviderType {
        MonorepoProviderType::Pnpm
    }

    open spec fn marker(&self) -> Seq<char> {
        "pnpm-workspace.yaml"@
    }

    open spec fn detects(&self, root: Seq<char>, entries: Seq<TreeEntryView>) -> bool {
        has_marker(root, entries, "pnpm-workspace.yaml"@)
    }

    open spec fn packages(&self, root: Seq<char>, entries: Seq<TreeEntryView>) -> Seq<
        PackageInfoView,
    > {
        expanded_packages(
            root,
            pnpm_patterns(
                text_or_empty(content_at(entries, path_join(root, "pnpm-workspace.yaml"@))),
            ),
            entries,
        )
    }

    fn provider_type(&self) -> (r: MonorepoProviderType) {
        MonorepoProviderType::Pnpm
    }

    fn config_file(&self) -> (r: &'static str) {
        "pnpm-workspace.yaml"
    }

    fn detect(&self, root: &str, entries: &Vec<TreeEntry>) -> (r: bool) {
        marker_exists(root, entries, "pnpm-workspace.yaml")
    }

    fn discover_packages(&self, root: &str, entries: &Vec<TreeEntry>) -> (r: Result<
        Vec<PackageInfo>,
        AbundantisError,
    >) {
        let path = join_path(root, "pnpm-workspace.yaml");
        let content = read_or_empty(entries, path.as_str());
        let patterns = patterns_in_pnpm(content.as_str());
        expand_package_patterns(root, &patterns, entries)
    }
}

} // verus!
