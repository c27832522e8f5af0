//! The packages of a workspace and the scope of each file.

use vstd::prelude::*;
use crate::config::WorkspaceConfig;
use crate::error::AbundantisError;
use crate::paths::{
    component_count, join_path, path_component_count, path_join, path_starts_with,
    starts_with_path,
};
use crate::selection::names_under;
use crate::text::{
    clone_opt_string, contains_text, lemma_position_of_first, position_of, str_eq, texts,
};
use crate::workspace::context::{
    package_views, PackageInfo, PackageInfoView, WorkspaceContext, WorkspaceContextView,
};
use crate::workspace::provider::registry::{AnyProvider, ProviderRegistry};
use crate::workspace::provider::traits::MonorepoProvider;
use crate::workspace::tree::{entry_views, TreeEntry, TreeEntryView};

verus! {

/// The roots of a list of packages, in order.
pub open spec fn package_roots(packages: Seq<PackageInfoView>) -> Seq<Seq<char>> {
    Seq::new(packages.len(), |i: int| packages[i].root)
}

/// The packages in a `hashbrown::HashMap` from their roots.
#[verifier::external_body]
pub struct PackageMap {
    map: hashbrown::HashMap<String, PackageInfo>,
}

/// What the map holds: for each root the package that is filed under it.
pub uninterp spec fn package_entries(packages: PackageMap) -> Map<Seq<char>, PackageInfoView>;

/// A map that holds no package.
pub open spec fn no_packages() -> Map<Seq<char>, PackageInfoView> {
    Map::empty()
}

/// Wraps `HashMap::new`: a map that holds nothing.
#[verifier::external_body]
fn packages_new() -> (packages: PackageMap)
    ensures
        package_entries(packages) == no_packages(),
{
    PackageMap { map: hashbrown::HashMap::new() }
}

/// Wraps `HashMap::insert`, with the root of the package as key: the root
/// has the package afterwards.
#[verifier::external_body]
fn packages_insert(packages: &mut PackageMap, package: PackageInfo)
    ensures
        package_entries(*final(packages)) == package_entries(*old(packages)).insert(
            package@.root,
            package@,
        ),
{
    packages.map.insert(package.root.clone(), package);
}

/// Wraps `HashMap::clear`: the map holds nothing afterwards.
#[verifier::external_body]
fn packages_clear(packages: &mut PackageMap)
    ensures
        package_entries(*final(packages)) == no_packages(),
{
    packages.map.clear();
}

/// Wraps `HashMap::iter`: a copy of every key with its package, each key
/// once, in the order in which the map happens to walk them.
#[verifier::external_body]
fn packages_listed(packages: &PackageMap) -> (r: Vec<(String, PackageInfo)>)
    ensures
        is_walk(listed_views(r@), package_entries(*packages)),
{
    packages.map.iter().map(|(root, package)| (root.clone(), package.clone())).collect()
}

/// A key of the map and the package filed under it.
pub type ListedView = (Seq<char>, PackageInfoView);

pub open spec fn listed_views(v: Seq<(String, PackageInfo)>) -> Seq<ListedView> {
    Seq::new(v.len(), |i: int| (v[i].0@, v[i].1@))
}

/// The keys of a walk, in order.
pub open spec fn listed_keys(listed: Seq<ListedView>) -> Seq<Seq<char>> {
    Seq::new(listed.len(), |i: int| listed[i].0)
}

/// The packages of a walk, in order.
pub open spec fn listed_packages(listed: Seq<ListedView>) -> Seq<PackageInfoView> {
    Seq::new(listed.len(), |i: int| listed[i].1)
}

/// Whether `listed` is a walk of the map: it holds every key once, in some
/// order, each with the package filed under it.
pub open spec fn is_walk(listed: Seq<ListedView>, packages: Map<Seq<char>, PackageInfoView>) -> bool {
    &&& listed_keys(listed).no_duplicates()
    &&& forall|i: int|
        0 <= i < listed.len() ==> packages.contains_key((#[trigger] listed[i]).0) && packages[listed[i].0]
            == listed[i].1
    &&& forall|root: Seq<char>|
        packages.contains_key(root) ==> #[trigger] listed_keys(listed).contains(root)
}

/// The packages that are kept of those that were found: each under its
/// root, of several with one root the one that was found last.
pub open spec fn by_root(found: Seq<PackageInfoView>) -> Map<Seq<char>, PackageInfoView>
    decreases found.len(),
{
    if found.len() == 0 {
        Map::empty()
    } else {
        by_root(found.drop_last()).insert(found.last().root, found.last())
    }
}

/// The files among `dir/pattern`, for the patterns in order, that exist.
pub open spec fn existing_files(
    dir: Seq<char>,
    patterns: Seq<Seq<char>>,
    existing: Seq<Seq<char>>,
) -> Seq<Seq<char>>
    decreases patterns.len(),
{
    if patterns.len() == 0 {
        Seq::empty()
    } else if existing.contains(path_join(dir, patterns.last())) {
        existing_files(dir, patterns.drop_last(), existing).push(path_join(dir, patterns.last()))
    } else {
        existing_files(dir, patterns.drop_last(), existing)
    }
}

/// The scope of a package: with cascading, and for a package that is not
/// the root, the dotenv files of the workspace root come first; those of
/// the package follow.
pub open spec fn context_of(
    root: Seq<char>,
    cascading: bool,
    patterns: Seq<Seq<char>>,
    package: PackageInfoView,
    existing: Seq<Seq<char>>,
) -> WorkspaceContextView {
    WorkspaceContextView {
        workspace_root: root,
        package_root: package.root,
        package_name: package.name,
        env_files: (if cascading && package.root != root {
            existing_files(root, patterns, existing)
        } else {
            Seq::empty()
        }) + existing_files(package.root, patterns, existing),
    }
}

/// Whether the package filed under `key` holds the file: its root begins
/// the file's path.
pub open spec fn package_holds(
    packages: Map<Seq<char>, PackageInfoView>,
    file: Seq<char>,
    key: Seq<char>,
) -> bool {
    packages.contains_key(key) && path_starts_with(file, packages[key].root)
}

/// Whether the package filed under `key` is one that holds the file most
/// deeply: no package that holds it has a root of more components.
pub open spec fn is_deepest_package(
    packages: Map<Seq<char>, PackageInfoView>,
    file: Seq<char>,
    key: Seq<char>,
) -> bool {
    &&& package_holds(packages, file, key)
    &&& forall|other: Seq<char>|
        #[trigger] package_holds(packages, file, other) ==> path_component_count(
            packages[other].root,
        ) <= path_component_count(packages[key].root)
}

/// The memo of the scopes that were computed, kept in a
/// `hashbrown::HashMap` from the paths that were asked for to their scopes.
#[verifier::external_body]
pub struct ContextMemo {
    map: hashbrown::HashMap<String, WorkspaceContext>,
}

/// What the memo holds: for each path the scope that was computed for it.
pub uninterp spec fn memo_entries(memo: ContextMemo) -> Map<Seq<char>, WorkspaceContextView>;

/// A memo that holds nothing.
pub open spec fn empty_memo() -> Map<Seq<char>, WorkspaceContextView> {
    Map::empty()
}

/// Wraps `HashMap::new`: a map that holds nothing.
#[verifier::external_body]
fn memo_new() -> (memo: ContextMemo)
    ensures
        memo_entries(memo) == empty_memo(),
{
    ContextMemo { map: hashbrown::HashMap::new() }
}

/// Wraps `HashMap::get`: a copy of the scope filed under the path.
#[verifier::external_body]
fn memo_get(memo: &ContextMemo, path: &str) -> (r: Option<WorkspaceContext>)
    ensures
        r is Some == memo_entries(*memo).contains_key(path@),
        r matches Some(context) ==> context@ == memo_entries(*memo)[path@],
{
    memo.map.get(path).cloned()
}

/// Wraps `HashMap::insert`: the path has the scope afterwards.
#[verifier::external_body]
fn memo_insert(memo: &mut ContextMemo, path: String, context: WorkspaceContext)
    ensures
        memo_entries(*final(memo)) == memo_entries(*old(memo)).insert(path@, context@),
{
    memo.map.insert(path, context);
}

/// Wraps `HashMap::clear`: the map holds nothing afterwards.
#[verifier::external_body]
fn memo_clear(memo: &mut ContextMemo)
    ensures
        memo_entries(*final(memo)) == empty_memo(),
{
    memo.map.clear();
}

/// The error of a workspace without configured flavour.
pub open spec fn is_missing_provider(e: AbundantisError) -> bool {
    match e {
        AbundantisError::MissingConfig { field, suggestion } => field@ == "workspace.provider"@
            && suggestion@ == "Set to one of: turbo, nx, lerna, pnpm, npm, cargo, custom"@,
        _ => false,
    }
}

/// The error of a root that does not show the marks of the flavour.
pub open spec fn is_marker_missing(e: AbundantisError, marker: Seq<char>, root: Seq<char>) -> bool {
    match e {
        AbundantisError::ProviderConfigNotFound { expected_file, search_path } => expected_file@
            == marker && search_path@ == root,
        _ => false,
    }
}

/// The packages of a workspace and the scopes of the files that were asked
/// for. Looking at the disk is left to the caller.
pub struct WorkspaceManager {
    root: String,
    config: WorkspaceConfig,
    packages: PackageMap,
    context_cache: ContextMemo,
    cascading: bool,
}

impl WorkspaceManager {
    pub closed spec fn root_text(&self) -> Seq<char> {
        self.root@
    }

    pub closed spec fn config(&self) -> WorkspaceConfig {
        self.config
    }

    pub closed spec fn cascading(&self) -> bool {
        self.cascading
    }

    /// The packages, each under its root.
    pub closed spec fn package_map(&self) -> Map<Seq<char>, PackageInfoView> {
        package_entries(self.packages)
    }

    /// The scopes that were computed, each under the path it was asked for.
    pub closed spec fn cache(&self) -> Map<Seq<char>, WorkspaceContextView> {
        memo_entries(self.context_cache)
    }

    /// A manager for the workspace at `root`, which the caller gives in
    /// canonical form, with the packages that the configured flavour finds in
    /// the tree.
    pub fn with_root(root: &str, config: WorkspaceConfig, entries: &Vec<TreeEntry>) -> (r: Result<
        Self,
        AbundantisError,
    >)
        ensures
            match r {
                Ok(manager) => manager.root_text() == root@ && manager.config() == config
                    && manager.cascading() == config.cascading && manager.cache() == empty_memo()
                    && is_discovery(root@, config, entry_views(entries@), Ok(manager.package_map())),
                Err(e) => is_discovery(root@, config, entry_views(entries@), Err(e)),
            },
    {
        let cascading = config.cascading;
        let mut manager = WorkspaceManager {
            root: root.to_owned(),
            config,
            packages: packages_new(),
            context_cache: memo_new(),
            cascading,
        };
        match manager.discover_packages(entries) {
            Ok(_) => Ok(manager),
            Err(e) => Err(e),
        }
    }

    /// Finds the packages anew and forgets the scopes that were computed.
    /// Without configured flavour, and where the root does not show the
    /// marks of the flavour, nothing changes.
    pub fn discover_packages(&mut self, entries: &Vec<TreeEntry>) -> (r: Result<(), AbundantisError>)
        ensures
            final(self).root_text() == old(self).root_text(),
            final(self).config() == old(self).config(),
            final(self).cascading() == old(self).cascading(),
            match r {
                Ok(_) => final(self).cache() == empty_memo() && is_discovery(
                    old(self).root_text(),
                    old(self).config(),
                    entry_views(entries@),
                    Ok(final(self).package_map()),
                ),
                Err(e) => final(self).cache() == old(self).cache() && final(self).package_map()
                    == old(self).package_map() && is_discovery(
                    old(self).root_text(),
                    old(self).config(),
                    entry_views(entries@),
                    Err(e),
                ),
            },
    {
        let provider = match ProviderRegistry::create(&self.config) {
            Some(provider) => provider,
            None => {
                return Err(
                    AbundantisError::MissingConfig {
                        field: "workspace.provider",
                        suggestion: "Set to one of: turbo, nx, lerna, pnpm, npm, cargo, custom".to_owned(),
                    },
                );
            },
        };
        if !provider.detect(self.root.as_str(), entries) {
            return Err(
                AbundantisError::ProviderConfigNotFound {
                    expected_file: provider.config_file(),
                    search_path: self.root.clone(),
                },
            );
        }
        let found = match provider.discover_packages(self.root.as_str(), entries) {
            Ok(found) => found,
            Err(e) => {
                return Err(e);
            },
        };
        let ghost all = package_views(found@);
        packages_clear(&mut self.packages);
        let mut i: usize = 0;
        proof {
            assert(all.take(0) =~= Seq::<PackageInfoView>::empty());
        }
        while i < found.len()
            invariant
                i <= found.len(),
                all == package_views(found@),
                self.package_map() == by_root(all.take(i as int)),
                self.root_text() == old(self).root_text(),
                self.config() == old(self).config(),
                self.cascading() == old(self).cascading(),
                self.cache() == old(self).cache(),
            decreases found.len() - i,
        {
            proof {
                assert(all.take(i + 1).drop_last() =~= all.take(i as int));
                assert(all.take(i + 1).last() == found@[i as int]@);
            }
            packages_insert(&mut self.packages, found[i].clone());
            i += 1;
        }
        proof {
            assert(all.take(found.len() as int) =~= all);
        }
        memo_clear(&mut self.context_cache);
        Ok(())
    }

    /// The scope of a package, given which of the dotenv files that may
    /// belong to it exist.
    pub fn build_context(&self, package: &PackageInfo, existing: &Vec<String>) -> (r:
        WorkspaceContext)
        ensures
            r@ == context_of(
                self.root_text(),
                self.cascading(),
                texts(self.config().env_files@),
                package@,
                texts(existing@),
            ),
    {
        let mut env_files: Vec<String> = Vec::new();
        if self.cascading && !str_eq(package.root.as_str(), self.root.as_str()) {
            env_files = files_existing(self.root.as_str(), &self.config.env_files, existing);
        }
        let ghost head = texts(env_files@);
        let own = files_existing(package.root.as_str(), &self.config.env_files, existing);
        let ghost tail = texts(own@);
        let mut k: usize = 0;
        proof {
            assert(head + tail.take(0) =~= head);
        }
        while k < own.len()
            invariant
                k <= own.len(),
                tail == texts(own@),
                texts(env_files@) == head + tail.take(k as int),
            decreases own.len() - k,
        {
            let ghost so_far = texts(env_files@);
            env_files.push(own[k].clone());
            proof {
                assert(texts(env_files@) =~= so_far.push(tail[k as int]));
                assert(tail.take(k + 1) =~= tail.take(k as int).push(tail[k as int]));
                assert(texts(env_files@) =~= head + tail.take(k + 1));
            }
            k += 1;
        }
        proof {
            assert(tail.take(own.len() as int) =~= tail);
        }
        WorkspaceContext {
            workspace_root: self.root.clone(),
            package_root: package.root.clone(),
            package_name: clone_opt_string(&package.name),
            env_files,
        }
    }

    /// The scope of a file. A scope that was computed for the path before
    /// is returned again. Else the file, of which the caller gives the
    /// canonical path, belongs to the package that holds it most deeply;
    /// the scope of that package is computed and remembered. A file without
    /// canonical path, or that no package holds, has no scope.
    pub fn context_for_file(
        &mut self,
        file_path: &str,
        canonical: Option<&str>,
        existing: &Vec<String>,
    ) -> (r: Option<WorkspaceContext>)
        ensures
            final(self).root_text() == old(self).root_text(),
            final(self).config() == old(self).config(),
            final(self).cascading() == old(self).cascading(),
            final(self).package_map() == old(self).package_map(),
            old(self).cache().contains_key(file_path@) ==> final(self).cache() == old(self).cache()
                && r is Some && r->0@ == old(self).cache()[file_path@],
            !old(self).cache().contains_key(file_path@) ==> match r {
                Some(context) => canonical is Some && final(self).cache() == old(self).cache().insert(
                    file_path@,
                    context@,
                ) && exists|key: Seq<char>|
                    #![trigger old(self).package_map()[key]]
                    is_deepest_package(old(self).package_map(), canonical->0@, key) && context@
                        == context_of(
                        old(self).root_text(),
                        old(self).cascading(),
                        texts(old(self).config().env_files@),
                        old(self).package_map()[key],
                        texts(existing@),
                    ),
                None => final(self).cache() == old(self).cache() && (canonical is None || forall|
                    key: Seq<char>,
                |
                    !package_holds(old(self).package_map(), canonical->0@, key)),
            },
    {
        match memo_get(&self.context_cache, file_path) {
            Some(context) => {
                return Some(context);
            },
            None => {},
        }
        let file = match canonical {
            Some(file) => file,
            None => {
                return None;
            },
        };
        let ghost packages = self.package_map();
        let listed = packages_listed(&self.packages);
        let ghost walk = listed_views(listed@);
        let mut best: Option<usize> = None;
        let mut best_depth: usize = 0;
        let mut i: usize = 0;
        while i < listed.len()
            invariant
                i <= listed.len(),
                *self == *old(self),
                packages == self.package_map(),
                walk == listed_views(listed@),
                is_walk(walk, packages),
                match best {
                    Some(b) => b < i && package_holds(packages, file@, walk[b as int].0)
                        && best_depth == path_component_count(walk[b as int].1.root) && forall|
                        j: int,
                    |
                        #![trigger walk[j]]
                        0 <= j < i && package_holds(packages, file@, walk[j].0)
                            ==> path_component_count(walk[j].1.root) <= path_component_count(
                            walk[b as int].1.root,
                        ),
                    None => forall|j: int|
                        #![trigger walk[j]]
                        0 <= j < i ==> !package_holds(packages, file@, walk[j].0),
                },
            decreases listed.len() - i,
        {
            proof {
                assert(walk[i as int] == (listed@[i as int].0@, listed@[i as int].1@));
                assert(packages[walk[i as int].0] == walk[i as int].1);
            }
            if starts_with_path(file, listed[i].1.root.as_str()) {
                let depth = component_count(listed[i].1.root.as_str());
                if best.is_none() || depth > best_depth {
                    best = Some(i);
                    best_depth = depth;
                }
            }
            i += 1;
        }
        let at = match best {
            Some(at) => at,
            None => {
                proof {
                    assert forall|key: Seq<char>| !package_holds(packages, file@, key) by {
                        if package_holds(packages, file@, key) {
                            assert(listed_keys(walk).contains(key));
                            let j = choose|j: int|
                                0 <= j < listed_keys(walk).len() && listed_keys(walk)[j] == key;
                            assert(walk[j].0 == key);
                        }
                    }
                }
                return None;
            },
        };
        let context = self.build_context(&listed[at].1, existing);
        memo_insert(&mut self.context_cache, file_path.to_owned(), context.clone());
        proof {
            let key = walk[at as int].0;
            assert(packages[key] == walk[at as int].1);
            assert(walk[at as int].1 == listed@[at as int].1@);
            assert forall|other: Seq<char>| #[trigger]
                package_holds(packages, file@, other) implies path_component_count(
                packages[other].root,
            ) <= path_component_count(packages[key].root) by {
                assert(listed_keys(walk).contains(other));
                let j = choose|j: int|
                    0 <= j < listed_keys(walk).len() && listed_keys(walk)[j] == other;
                assert(walk[j].0 == other);
                assert(packages[other] == walk[j].1);
            }
            assert(is_deepest_package(packages, file@, key));
        }
        Some(context)
    }

    /// Finds the packages anew.
    pub fn refresh(&mut self, entries: &Vec<TreeEntry>) -> (r: Result<(), AbundantisError>)
        ensures
            final(self).root_text() == old(self).root_text(),
            final(self).config() == old(self).config(),
            final(self).cascading() == old(self).cascading(),
            match r {
                Ok(_) => final(self).cache() == empty_memo() && is_discovery(
                    old(self).root_text(),
                    old(self).config(),
                    entry_views(entries@),
                    Ok(final(self).package_map()),
                ),
                Err(e) => final(self).cache() == old(self).cache() && final(self).package_map()
                    == old(self).package_map() && is_discovery(
                    old(self).root_text(),
                    old(self).config(),
                    entry_views(entries@),
                    Err(e),
                ),
            },
    {
        self.discover_packages(entries)
    }

    /// A copy of the packages, each once, in the order in which the map
    /// happens to walk them.
    pub fn packages(&self) -> (r: Vec<PackageInfo>)
        ensures
            exists|walk: Seq<ListedView>|
                is_walk(walk, self.package_map()) && package_views(r@) == #[trigger] listed_packages(
                    walk,
                ),
    {
        let listed = packages_listed(&self.packages);
        let mut out: Vec<PackageInfo> = Vec::new();
        let mut i: usize = 0;
        while i < listed.len()
            invariant
                i <= listed.len(),
                out@.len() == i,
                forall|k: int| 0 <= k < i ==> (#[trigger] out@[k])@ == listed@[k].1@,
            decreases listed.len() - i,
        {
            out.push(listed[i].1.clone());
            i += 1;
        }
        proof {
            assert(package_views(out@) =~= listed_packages(listed_views(listed@)));
        }
        out
    }

    pub fn root(&self) -> (r: &str)
        ensures
            r@ == self.root_text(),
    {
        self.root.as_str()
    }

    /// The paths at which the dotenv files of the workspace root and of
    /// every package would stand: what `context_for_file` wants to know
    /// the existence of. The packages come in the order in which the map
    /// happens to walk them.
    pub fn candidate_env_files(&self) -> (r: Vec<String>)
        ensures
            exists|walk: Seq<ListedView>|
                is_walk(walk, self.package_map()) && texts(r@) == #[trigger] candidates(
                    self.root_text(),
                    package_roots(listed_packages(walk)),
                    texts(self.config().env_files@),
                ),
    {
        let ghost names = texts(self.config.env_files@);
        let listed = packages_listed(&self.packages);
        let ghost roots = package_roots(listed_packages(listed_views(listed@)));
        let mut out: Vec<String> = Vec::new();
        self.push_under(self.root.as_str(), &mut out);
        proof {
            assert(roots.take(0) =~= Seq::<Seq<char>>::empty());
            assert(texts(out@) =~= names_under(self.root@, names));
        }
        let mut p: usize = 0;
        while p < listed.len()
            invariant
                p <= listed.len(),
                names == texts(self.config.env_files@),
                roots == package_roots(listed_packages(listed_views(listed@))),
                texts(out@) == candidates(self.root@, roots.take(p as int), names),
            decreases listed.len() - p,
        {
            proof {
                assert(roots.take(p + 1).drop_last() =~= roots.take(p as int));
                assert(roots.take(p + 1).last() == listed@[p as int].1.root@);
            }
            self.push_under(listed[p].1.root.as_str(), &mut out);
            p += 1;
        }
        proof {
            assert(roots.take(listed.len() as int) =~= roots);
            let walk = listed_views(listed@);
            assert(is_walk(walk, self.package_map()));
            assert(texts(out@) == candidates(
                self.root_text(),
                package_roots(listed_packages(walk)),
                texts(self.config().env_files@),
            ));
        }
        out
    }

    /// The patterns under which the dotenv files of the packages are looked
    /// for: for each package in turn, each file pattern below its root. The
    /// packages come in the order in which the map happens to walk them.
    pub fn env_file_patterns(&self) -> (r: Vec<String>)
        ensures
            exists|walk: Seq<ListedView>|
                is_walk(walk, self.package_map()) && texts(r@) == #[trigger] package_patterns(
                    package_roots(listed_packages(walk)),
                    texts(self.config().env_files@),
                ),
    {
        let ghost names = texts(self.config.env_files@);
        let listed = packages_listed(&self.packages);
        let ghost roots = package_roots(listed_packages(listed_views(listed@)));
        let mut out: Vec<String> = Vec::new();
        proof {
            assert(roots.take(0) =~= Seq::<Seq<char>>::empty());
            assert(texts(out@) =~= Seq::<Seq<char>>::empty());
        }
        let mut p: usize = 0;
        while p < listed.len()
            invariant
                p <= listed.len(),
                names == texts(self.config.env_files@),
                roots == package_roots(listed_packages(listed_views(listed@))),
                texts(out@) == package_patterns(roots.take(p as int), names),
            decreases listed.len() - p,
        {
            proof {
                assert(roots.take(p + 1).drop_last() =~= roots.take(p as int));
                assert(roots.take(p + 1).last() == listed@[p as int].1.root@);
            }
            self.push_under(listed[p].1.root.as_str(), &mut out);
            p += 1;
        }
        proof {
            assert(roots.take(listed.len() as int) =~= roots);
        }
        out
    }

    /// Adds the paths of the dotenv files under `dir`.
    fn push_under(&self, dir: &str, out: &mut Vec<String>)
        ensures
            texts(final(out)@) == texts(old(out)@) + names_under(
                dir@,
                texts(self.config().env_files@),
            ),
    {
        let ghost names = texts(self.config.env_files@);
        let ghost before = texts(out@);
        let mut k: usize = 0;
        proof {
            assert(texts(out@) =~= before + names_under(dir@, names.take(0)));
        }
        while k < self.config.env_files.len()
            invariant
                k <= self.config.env_files.len(),
                names == texts(self.config.env_files@),
                texts(out@) == before + names_under(dir@, names.take(k as int)),
            decreases self.config.env_files.len() - k,
        {
            let ghost so_far = texts(out@);
            let path = join_path(dir, self.config.env_files[k].as_str());
            out.push(path);
            proof {
                assert(texts(out@) =~= so_far.push(path@));
                assert(names_under(dir@, names.take(k + 1)) =~= names_under(
                    dir@,
                    names.take(k as int),
                ).push(path@));
                assert(texts(out@) =~= before + names_under(dir@, names.take(k + 1)));
            }
            k += 1;
        }
        proof {
            assert(names.take(self.config.env_files.len() as int) =~= names);
        }
    }
}

/// The paths of the files `names` under each of `roots` in turn.
pub open spec fn package_patterns(roots: Seq<Seq<char>>, names: Seq<Seq<char>>) -> Seq<Seq<char>>
    decreases roots.len(),
{
    if roots.len() == 0 {
        Seq::empty()
    } else {
        package_patterns(roots.drop_last(), names) + names_under(roots.last(), names)
    }
}

/// The paths of the files `names` under `root`, then under each of `roots`
/// in turn.
pub open spec fn candidates(root: Seq<char>, roots: Seq<Seq<char>>, names: Seq<Seq<char>>) -> Seq<
    Seq<char>,
>
    decreases roots.len(),
{
    if roots.len() == 0 {
        names_under(root, names)
    } else {
        candidates(root, roots.drop_last(), names) + names_under(roots.last(), names)
    }
}

/// Whether `r` is what looking for the packages of the workspace at `root`
/// gives: without configured flavour there is nothing to look for; a root
/// that does not show the marks of the flavour is refused; else the packages
/// that the flavour finds are kept, each under its root.
pub open spec fn is_discovery(
    root: Seq<char>,
    config: WorkspaceConfig,
    entries: Seq<TreeEntryView>,
    r: Result<Map<Seq<char>, PackageInfoView>, AbundantisError>,
) -> bool {
    match config.provider {
        None => r is Err && is_missing_provider(r->Err_0),
        Some(provider_type) => exists|provider: AnyProvider|
            #![trigger provider.kind()]
            provider.kind() == (match provider_type {
                crate::config::MonorepoProviderType::Yarn => crate::config::MonorepoProviderType::Npm,
                other => other,
            }) && (provider matches AnyProvider::Custom(custom) ==> custom.patterns() == texts(
                config.roots@,
            )) && match r {
                Ok(packages) => provider.detects(root, entries) && packages == by_root(
                    provider.packages(root, entries),
                ),
                Err(e) => !provider.detects(root, entries) && is_marker_missing(
                    e,
                    provider.marker(),
                    root,
                ),
            },
    }
}

/// The files among `dir/pattern`, for the patterns in order, that exist.
pub fn files_existing(dir: &str, patterns: &Vec<String>, existing: &Vec<String>) -> (r: Vec<String>)
    ensures
        texts(r@) == existing_files(dir@, texts(patterns@), texts(existing@)),
{
    let ghost all = texts(patterns@);
    let mut out: Vec<String> = Vec::new();
    let mut i: usize = 0;
    proof {
        assert(all.take(0) =~= Seq::<Seq<char>>::empty());
        assert(texts(out@) =~= existing_files(dir@, all.take(0), texts(existing@)));
    }
    while i < patterns.len()
        invariant
            i <= patterns.len(),
            all == texts(patterns@),
            texts(out@) == existing_files(dir@, all.take(i as int), texts(existing@)),
        decreases patterns.len() - i,
    {
        proof {
            assert(all.take(i + 1).drop_last() =~= all.take(i as int));
            assert(all.take(i + 1).last() == patterns@[i as int]@);
        }
        let path = join_path(dir, patterns[i].as_str());
        if contains_text(existing, path.as_str()) {
            let ghost before = texts(out@);
            out.push(path);
            assert(texts(out@) =~= before.push(path@));
        }
        i += 1;
    }
    assert(all.take(patterns.len() as int) =~= all);
    out
}

} // verus!
