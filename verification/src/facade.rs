//! The instance that ties sources, workspace, selection and resolution
//! together.

use vstd::prelude::*;
use std::sync::Arc;
use crate::builder::AbundantisBuilder;
use crate::config::{
    is_default_config, AbundantisConfig, MonorepoProviderType, WorkspaceConfig,
};
use crate::error::AbundantisError;
use crate::events::{
    any_invalidation, tells_invalidation, AbundantisEvent, EventBus, EventSubscriber,
};
use crate::resolution::interpolate::variable_keys;
use crate::source::traits::SourceSnapshot;
use crate::watch::ChangeKind;
use crate::watch_manager::{
    is_cache_invalidated, is_variables_changed, keys_added, keys_removed, WatchManager,
};
use crate::path_cache::PathCache;
use crate::resolution::cache::{empty_warm, HotEntry, ResolvedVariable};
use crate::resolution::engine::{is_answer, is_loaded_listing, ResolutionEngine};
use crate::resolution::order::id_texts;
use crate::selection::{
    active_files_of, insert_scope, is_plan, remove_scope, scope_views, set_scope, unset_scope,
    ActiveFileSelector, DirectoryScope, ScopeView, SelectionFacts, SelectionPlan,
};
use crate::source::config::{clone_scopes, opt_texts, SourceRefreshOptions};
use crate::source::registry::{
    source_ids, with_all_filed, with_sources, without_all_filed, without_sources, SourceRegistry,
};
use crate::source::traits::{EnvSource, SourceId};
use crate::text::{clone_strings, concat, contains_text, distinct, str_eq, texts};
use crate::workspace::context::WorkspaceContext;
use crate::workspace::manager::WorkspaceManager;
use crate::{AbundantisStats, RefreshOptions};

verus! {

/// The workspace settings that are in force: where no flavour is
/// configured, the detected one is taken, and where none is detected, the
/// custom flavour, with the root itself as package where no roots are
/// named.
pub open spec fn provider_resolved(
    provider: Option<MonorepoProviderType>,
    roots: Seq<Seq<char>>,
    detected: Option<MonorepoProviderType>,
) -> (Option<MonorepoProviderType>, Seq<Seq<char>>) {
    if provider is Some {
        (provider, roots)
    } else if detected is Some {
        (detected, roots)
    } else {
        (
            Some(MonorepoProviderType::Custom),
            if roots.len() == 0 {
                seq!["."@]
            } else {
                roots
            },
        )
    }
}

/// The workspace settings that are in force, given the flavour that was
/// detected in the root.
pub fn resolve_provider(config: WorkspaceConfig, detected: Option<MonorepoProviderType>) -> (r:
    WorkspaceConfig)
    ensures
        (r.provider, texts(r.roots@)) == provider_resolved(
            config.provider,
            texts(config.roots@),
            detected,
        ),
        r.root == config.root,
        r.cascading == config.cascading,
        r.env_files == config.env_files,
        r.ignores == config.ignores,
{
    let mut out = config;
    if out.provider.is_none() {
        match detected {
            Some(found) => {
                out.provider = Some(found);
            },
            None => {
                out.provider = Some(MonorepoProviderType::Custom);
                if out.roots.len() == 0 {
                    out.roots.push(".".to_owned());
                    assert(texts(out.roots@) =~= seq!["."@]);
                }
            },
        }
    }
    out
}

/// Whether `after` is the engine `before` with an empty cache: the settings
/// and the graph are as they were, and nothing is cached.
pub open spec fn is_emptied(before: ResolutionEngine, after: ResolutionEngine) -> bool {
    &&& after.resolution() == before.resolution()
    &&& after.interpolation() == before.interpolation()
    &&& after.graph_edges() == before.graph_edges()
    &&& after.graph_version() == before.graph_version()
    &&& after.cache_state().hot() == Seq::<HotEntry>::empty()
    &&& after.cache_state().warm() == empty_warm()
    &&& after.cache_state().enabled() == before.cache_state().enabled()
    &&& after.cache_state().capacity() == before.cache_state().capacity()
    &&& after.cache_state().ttl() == before.cache_state().ttl()
}

/// The paths for which identities were made, in order.
pub open spec fn known_paths(known: Seq<(Seq<char>, Seq<char>)>) -> Seq<Seq<char>> {
    Seq::new(known.len(), |i: int| known[i].0)
}

/// The identity of the file source of a path.
pub open spec fn file_id(path: Seq<char>) -> Seq<char> {
    "file:"@ + path
}

/// The identities of the file sources of the paths, in order.
pub open spec fn file_ids(paths: Seq<Seq<char>>) -> Seq<Seq<char>> {
    Seq::new(paths.len(), |i: int| file_id(paths[i]))
}

/// What is to be done to the registry after the disk was searched for
/// dotenv files.
#[derive(Debug)]
pub struct Rediscovery {
    /// The files to make sources for.
    pub register: Vec<String>,
    /// The sources to drop.
    pub unregister: Vec<SourceId>,
}

/// What a refresh keeps of the settings of active files.
#[derive(Debug)]
pub struct FileConfigBackup {
    pub global: Option<Vec<String>>,
    pub directory: Vec<DirectoryScope>,
}

/// The instance. Everything that needs the disk is left to the caller, who
/// hands in what was found there.
pub struct Abundantis<S: EnvSource, E: EventSubscriber> {
    pub config: AbundantisConfig,
    pub registry: SourceRegistry<S>,
    pub resolution: ResolutionEngine,
    pub workspace: WorkspaceManager,
    pub path_cache: PathCache,
    pub event_bus: EventBus<E>,
    pub selector: ActiveFileSelector,
    pub global_active_files: Option<Vec<String>>,
    pub directory_active_files: Vec<DirectoryScope>,
    pub path_to_source_id: Vec<(String, SourceId)>,
}

impl<S: EnvSource, E: EventSubscriber> Abundantis<S, E> {
    /// The patterns of the files that are active everywhere.
    pub open spec fn global_files(&self) -> Option<Seq<Seq<char>>> {
        opt_texts(self.global_active_files)
    }

    /// The patterns of the files that are active below directories.
    pub open spec fn directory_files(&self) -> Seq<ScopeView> {
        scope_views(self.directory_active_files@)
    }

    /// The identities that were made for paths, each under its path.
    pub open spec fn known_ids(&self) -> Seq<(Seq<char>, Seq<char>)> {
        Seq::new(
            self.path_to_source_id@.len(),
            |i: int| (self.path_to_source_id@[i].0@, self.path_to_source_id@[i].1@),
        )
    }

    pub open spec fn selector_root(&self) -> Seq<char> {
        self.selector.root()
    }

    /// Whether every identity that is remembered for a path is the identity
    /// of the file source of that path.
    pub open spec fn wf(&self) -> bool {
        forall|i: int|
            0 <= i < self.path_to_source_id@.len() ==> (#[trigger] self.path_to_source_id@[i]).1@
                == file_id(self.path_to_source_id@[i].0@)
    }

    /// A builder with the default configuration and nothing else.
    pub fn builder() -> (r: AbundantisBuilder<S, E>)
        ensures
            r.custom_sources@.len() == 0,
            r.subscribers@.len() == 0,
            r.root is None,
            r.event_buffer_size is None,
            r.active_files is None,
            r.active_files_for_directory@.len() == 0,
            is_default_config(r.config),
    {
        AbundantisBuilder::new()
    }

    /// Puts an instance together from its parts.
    pub fn assemble(
        config: AbundantisConfig,
        registry: SourceRegistry<S>,
        resolution: ResolutionEngine,
        workspace: WorkspaceManager,
        event_bus: EventBus<E>,
        root: &str,
        active_files: Option<Vec<String>>,
        active_files_for_directory: Vec<DirectoryScope>,
    ) -> (r: Self)
        ensures
            r.wf(),
            r.config == config,
            r.registry == registry,
            r.resolution == resolution,
            r.workspace == workspace,
            r.event_bus == event_bus,
            r.global_files() == opt_texts(active_files),
            r.directory_files() == scope_views(active_files_for_directory@),
            r.known_ids().len() == 0,
            r.selector_root() == root@,
    {
        Abundantis {
            config,
            registry,
            resolution,
            workspace,
            path_cache: PathCache::new(),
            event_bus,
            selector: ActiveFileSelector::new(root),
            global_active_files: active_files,
            directory_active_files: active_files_for_directory,
            path_to_source_id: Vec::new(),
        }
    }

    pub fn event_bus(&self) -> (r: &EventBus<E>)
        ensures
            *r == self.event_bus,
    {
        &self.event_bus
    }

    pub fn config(&self) -> (r: &AbundantisConfig)
        ensures
            *r == self.config,
    {
        &self.config
    }

    /// The number of cached resolutions and of registered sources.
    pub fn stats(&self) -> (r: AbundantisStats)
        requires
            self.resolution.cache_state().warm().len() + self.resolution.cache_state().hot().len()
                <= usize::MAX,
        ensures
            r.source_count == self.registry.sources().len(),
            r.cached_variables == if self.resolution.cache_state().enabled() {
                self.resolution.cache_state().warm().len() + self.resolution.cache_state().hot().len()
            } else {
                0
            },
    {
        AbundantisStats {
            cached_variables: self.resolution.cache().len(),
            source_count: self.registry.source_count(),
        }
    }

    /// Forgets the identities that were made for paths and empties the
    /// cache.
    fn forget(&mut self)
        ensures
            final(self).wf(),
            final(self).known_ids().len() == 0,
            final(self).config == old(self).config,
            final(self).registry == old(self).registry,
            final(self).workspace == old(self).workspace,
            final(self).path_cache == old(self).path_cache,
            final(self).event_bus == old(self).event_bus,
            final(self).global_files() == old(self).global_files(),
            final(self).directory_files() == old(self).directory_files(),
            final(self).selector_root() == old(self).selector_root(),
            final(self).resolution.resolution() == old(self).resolution.resolution(),
            final(self).resolution.interpolation() == old(self).resolution.interpolation(),
            final(self).resolution.cache_state().hot() == Seq::<HotEntry>::empty(),
            final(self).resolution.cache_state().warm() == empty_warm(),
    {
        self.path_to_source_id = Vec::new();
        self.resolution.clear_cache();
    }

    /// Sets the patterns of the files that are active everywhere.
    pub fn set_active_files(&mut self, patterns: &Vec<String>)
        ensures
            final(self).wf(),
            final(self).global_files() == Some(texts(patterns@)),
            final(self).directory_files() == old(self).directory_files(),
            final(self).known_ids().len() == 0,
            final(self).resolution.cache_state().hot() == Seq::<HotEntry>::empty(),
            final(self).resolution.cache_state().warm() == empty_warm(),
            final(self).registry == old(self).registry,
            final(self).workspace == old(self).workspace,
    {
        self.global_active_files = Some(clone_strings(patterns));
        self.forget();
    }

    /// Sets the patterns of the files that are active below a directory,
    /// given in canonical form.
    pub fn set_active_files_for_directory(&mut self, canonical_dir: &str, patterns: &Vec<String>)
        ensures
            final(self).wf(),
            final(self).global_files() == old(self).global_files(),
            final(self).directory_files() == set_scope(
                old(self).directory_files(),
                canonical_dir@,
                texts(patterns@),
            ),
            final(self).known_ids().len() == 0,
            final(self).resolution.cache_state().hot() == Seq::<HotEntry>::empty(),
            final(self).resolution.cache_state().warm() == empty_warm(),
            final(self).registry == old(self).registry,
            final(self).workspace == old(self).workspace,
    {
        insert_scope(&mut self.directory_active_files, canonical_dir, patterns);
        self.forget();
    }

    /// Drops the patterns that are active everywhere.
    pub fn clear_active_files(&mut self)
        ensures
            final(self).wf(),
            final(self).global_files() is None,
            final(self).directory_files() == old(self).directory_files(),
            final(self).known_ids().len() == 0,
            final(self).resolution.cache_state().hot() == Seq::<HotEntry>::empty(),
            final(self).resolution.cache_state().warm() == empty_warm(),
            final(self).registry == old(self).registry,
            final(self).workspace == old(self).workspace,
    {
        self.global_active_files = None;
        self.forget();
    }

    /// Drops the patterns that are active below a directory, given in
    /// canonical form.
    pub fn clear_active_files_for_directory(&mut self, canonical_dir: &str)
        ensures
            final(self).wf(),
            final(self).global_files() == old(self).global_files(),
            final(self).directory_files() == unset_scope(
                old(self).directory_files(),
                canonical_dir@,
            ),
            final(self).known_ids().len() == 0,
            final(self).resolution.cache_state().hot() == Seq::<HotEntry>::empty(),
            final(self).resolution.cache_state().warm() == empty_warm(),
            final(self).registry == old(self).registry,
            final(self).workspace == old(self).workspace,
    {
        remove_scope(&mut self.directory_active_files, canonical_dir);
        self.forget();
    }

    /// Drops every setting of active files.
    pub fn clear_all_active_files(&mut self)
        ensures
            final(self).wf(),
            final(self).global_files() is None,
            final(self).directory_files().len() == 0,
            final(self).known_ids().len() == 0,
            final(self).resolution.cache_state().hot() == Seq::<HotEntry>::empty(),
            final(self).resolution.cache_state().warm() == empty_warm(),
            final(self).registry == old(self).registry,
            final(self).workspace == old(self).workspace,
    {
        self.clear_active_files();
        self.directory_active_files = Vec::new();
    }

    /// Decides what is to be selected for a file, with the settings of this
    /// instance. The caller gives the canonical forms of the file and of
    /// the directories that have patterns.
    pub fn plan_active_env_files(
        &self,
        file_path: &str,
        canonical_file: &str,
        canonical_scopes: &Vec<String>,
    ) -> (r: SelectionPlan)
        requires
            canonical_scopes@.len() == self.directory_files().len(),
        ensures
            is_plan(
                r,
                self.selector_root(),
                file_path@,
                canonical_file@,
                self.global_files(),
                self.directory_active_files@,
                texts(canonical_scopes@),
            ),
    {
        match &self.global_active_files {
            Some(patterns) => self.selector.plan_active_files(
                file_path,
                canonical_file,
                Some(patterns),
                &self.directory_active_files,
                canonical_scopes,
            ),
            None => self.selector.plan_active_files(
                file_path,
                canonical_file,
                None,
                &self.directory_active_files,
                canonical_scopes,
            ),
        }
    }

    /// The files that are active for a file, given the plan for it and what
    /// the caller has found on disk for the selections of the plan.
    pub fn active_env_files(
        &self,
        plan: &SelectionPlan,
        general: &SelectionFacts,
        scoped: &SelectionFacts,
    ) -> (r: Vec<String>)
        ensures
            texts(r@) == active_files_of(self.selector_root(), *plan, *general, *scoped),
    {
        self.selector.compute_active_files(plan, general, scoped)
    }

    /// The selector of this instance.
    pub fn selector(&self) -> (r: &ActiveFileSelector)
        ensures
            r.root() == self.selector_root(),
    {
        &self.selector
    }

    /// The identities of the file sources of the paths, which the caller
    /// gives in canonical form: `file:` and the path. A path is listed once.
    pub fn get_source_ids_for_paths(&mut self, canonical_paths: &Vec<String>) -> (r: Vec<SourceId>)
        requires
            old(self).wf(),
        ensures
            final(self).wf(),
            id_texts(r@) == distinct(file_ids(texts(canonical_paths@))),
            is_ids_of(id_texts(r@), texts(canonical_paths@)),
            final(self).config == old(self).config,
            final(self).registry == old(self).registry,
            final(self).resolution == old(self).resolution,
            final(self).workspace == old(self).workspace,
            final(self).global_files() == old(self).global_files(),
            final(self).directory_files() == old(self).directory_files(),
    {
        let ghost wanted = file_ids(texts(canonical_paths@));
        let mut result: Vec<SourceId> = Vec::new();
        let mut i: usize = 0;
        proof {
            assert(wanted.take(0) =~= Seq::<Seq<char>>::empty());
            assert(id_texts(result@) =~= Seq::<Seq<char>>::empty());
        }
        while i < canonical_paths.len()
            invariant
                i <= canonical_paths.len(),
                self.wf(),
                wanted == file_ids(texts(canonical_paths@)),
                id_texts(result@) == distinct(wanted.take(i as int)),
                id_texts(result@).no_duplicates(),
                forall|id: Seq<char>|
                    id_texts(result@).contains(id) <==> wanted.take(i as int).contains(id),
                self.config == old(self).config,
                self.registry == old(self).registry,
                self.resolution == old(self).resolution,
                self.workspace == old(self).workspace,
                self.global_files() == old(self).global_files(),
                self.directory_files() == old(self).directory_files(),
            decreases canonical_paths.len() - i,
        {
            let path = canonical_paths[i].as_str();
            let ghost before = id_texts(result@);
            let ghost seen = wanted.take(i as int);
            let ghost more = wanted.take(i + 1);
            let id = match self.remembered(path) {
                Some(id) => id,
                None => {
                    let id = SourceId::new(concat("file:", path).as_str());
                    let ghost ids = self.path_to_source_id@;
                    self.path_to_source_id.push((path.to_owned(), id.clone()));
                    proof {
                        assert forall|k: int| 0 <= k < self.path_to_source_id@.len() implies (
                        #[trigger] self.path_to_source_id@[k]).1@ == file_id(
                            self.path_to_source_id@[k].0@,
                        ) by {
                            if k < ids.len() {
                                assert(self.path_to_source_id@[k] == ids[k]);
                            }
                        }
                    }
                    id
                },
            };
            proof {
                assert(wanted[i as int] == file_id(path@));
                assert(id@ == wanted[i as int]);
                assert(more =~= seen.push(id@));
                assert(more.drop_last() =~= seen);
            }
            let mut listed = false;
            let mut k: usize = 0;
            while k < result.len()
                invariant
                    k <= result.len(),
                    listed == id_texts(result@).take(k as int).contains(id@),
                decreases result.len() - k,
            {
                let ghost head = id_texts(result@).take(k as int);
                let ghost next = id_texts(result@).take(k + 1);
                proof {
                    assert(next =~= head.push(result@[k as int]@));
                    if head.contains(id@) {
                        let w = choose|w: int| 0 <= w < head.len() && head[w] == id@;
                        assert(next[w] == id@);
                    }
                    if next.contains(id@) && result@[k as int]@ != id@ {
                        let w = choose|w: int| 0 <= w < next.len() && next[w] == id@;
                        assert(head[w] == id@);
                    }
                    if result@[k as int]@ == id@ {
                        assert(next[k as int] == id@);
                    }
                }
                if str_eq(result[k].as_str(), id.as_str()) {
                    listed = true;
                }
                k += 1;
            }
            proof {
                assert(id_texts(result@).take(result@.len() as int) =~= id_texts(result@));
            }
            if !listed {
                result.push(id);
                proof {
                    assert(id_texts(result@) =~= before.push(id@));
                }
            }
            proof {
                let after = id_texts(result@);
                assert forall|x: Seq<char>| after.contains(x) <==> more.contains(x) by {
                    if after.contains(x) {
                        let w = choose|w: int| 0 <= w < after.len() && after[w] == x;
                        if w < before.len() {
                            assert(before[w] == x);
                            assert(before.contains(x));
                            let u = choose|u: int| 0 <= u < seen.len() && seen[u] == x;
                            assert(more[u] == x);
                        } else {
                            assert(more[i as int] == x);
                        }
                    }
                    if more.contains(x) {
                        let u = choose|u: int| 0 <= u < more.len() && more[u] == x;
                        if u < i {
                            assert(seen[u] == x);
                            assert(seen.contains(x));
                            assert(before.contains(x));
                            let w = choose|w: int| 0 <= w < before.len() && before[w] == x;
                            assert(after[w] == x);
                        } else if listed {
                            assert(before.contains(x));
                        } else {
                            assert(after[before.len() as int] == x);
                        }
                    }
                }
                if !listed {
                    assert forall|a: int, b: int|
                        0 <= a < after.len() && 0 <= b < after.len() && a != b implies after[a]
                        != after[b] by {
                        if a < before.len() && b < before.len() {
                            assert(before[a] != before[b]);
                        } else if a < before.len() {
                            assert(before.contains(before[a]));
                        } else {
                            assert(before.contains(before[b]));
                        }
                    }
                }
            }
            i += 1;
        }
        proof {
            assert(wanted.take(canonical_paths.len() as int) =~= wanted);
        }
        result
    }

    /// The identity that is remembered for a path: the identity of the file
    /// source of the path, where one was made for the path before, else
    /// none.
    fn remembered(&self, path: &str) -> (r: Option<SourceId>)
        requires
            self.wf(),
        ensures
            r is Some == known_paths(self.known_ids()).contains(path@),
            r matches Some(id) ==> id@ == file_id(path@),
    {
        let ghost paths = known_paths(self.known_ids());
        let mut i: usize = 0;
        while i < self.path_to_source_id.len()
            invariant
                i <= self.path_to_source_id.len(),
                self.wf(),
                paths == known_paths(self.known_ids()),
                forall|j: int| 0 <= j < i ==> paths[j] != path@,
            decreases self.path_to_source_id.len() - i,
        {
            proof {
                assert(paths[i as int] == self.path_to_source_id@[i as int].0@);
            }
            if str_eq(self.path_to_source_id[i].0.as_str(), path) {
                proof {
                    assert(paths.contains(path@));
                }
                return Some(self.path_to_source_id[i].1.clone());
            }
            i += 1;
        }
        proof {
            assert(!paths.contains(path@));
        }
        None
    }

    /// Resolves `key` in a scope, among all sources.
    pub fn get_in_context(&mut self, key: &str, context: &WorkspaceContext) -> (r: Result<
        Option<Arc<ResolvedVariable>>,
        AbundantisError,
    >)
        requires
            old(self).resolution.resolution().files.order@.len() < usize::MAX,
        ensures
            final(self).registry == old(self).registry,
            final(self).workspace == old(self).workspace,
            final(self).config == old(self).config,
            final(self).path_to_source_id == old(self).path_to_source_id,
            exists|now: u128| #[trigger]
                is_answer(
                    old(self).resolution,
                    final(self).resolution,
                    key@,
                    context@,
                    now,
                    r,
                    source_ids(old(self).registry.sources()),
                    None,
                ),
    {
        let ghost before = self.resolution;
        let r = self.resolution.resolve(key, context, &self.registry);
        proof {
            let now = choose|now: u128| #[trigger]
                is_answer(
                    before,
                    self.resolution,
                    key@,
                    context@,
                    now,
                    r,
                    source_ids(self.registry.sources()),
                    None,
                );
            assert(is_answer(
                old(self).resolution,
                self.resolution,
                key@,
                context@,
                now,
                r,
                source_ids(old(self).registry.sources()),
                None,
            ));
        }
        r
    }

    /// Lists the variables of all sources.
    pub fn all_in_context(&mut self, _context: &WorkspaceContext) -> (r: Result<
        Vec<Arc<ResolvedVariable>>,
        AbundantisError,
    >)
        requires
            old(self).resolution.resolution().files.order@.len() < usize::MAX,
        ensures
            final(self).registry == old(self).registry,
            final(self).workspace == old(self).workspace,
            final(self).config == old(self).config,
            final(self).path_to_source_id == old(self).path_to_source_id,
            is_loaded_listing(
                old(self).resolution,
                final(self).resolution,
                source_ids(old(self).registry.sources()),
                None,
                r,
            ),
    {
        self.resolution.all_variables(&self.registry)
    }

    /// Resolves `key` for a file, of which the caller gives the scope, if it
    /// has one, and the active files in canonical form. A file without scope
    /// is refused.
    pub fn get_for_file(
        &mut self,
        key: &str,
        file_path: &str,
        context: Option<&WorkspaceContext>,
        active_files: &Vec<String>,
    ) -> (r: Result<Option<Arc<ResolvedVariable>>, AbundantisError>)
        requires
            old(self).wf(),
            old(self).resolution.resolution().files.order@.len() < usize::MAX,
        ensures
            final(self).wf(),
            final(self).registry == old(self).registry,
            final(self).workspace == old(self).workspace,
            final(self).config == old(self).config,
            context is None ==> final(self).resolution == old(self).resolution && is_no_context(
                r,
                file_path@,
            ),
            context is Some ==> exists|now: u128, ids: Seq<Seq<char>>|
                #![trigger is_answer(
                    old(self).resolution,
                    final(self).resolution,
                    key@,
                    context->0@,
                    now,
                    r,
                    source_ids(old(self).registry.sources()),
                    Some(Some(ids)),
                )]
                is_ids_of(ids, texts(active_files@)) && is_answer(
                    old(self).resolution,
                    final(self).resolution,
                    key@,
                    context->0@,
                    now,
                    r,
                    source_ids(old(self).registry.sources()),
                    Some(Some(ids)),
                ),
    {
        let context = match context {
            Some(context) => context,
            None => {
                return Err(
                    AbundantisError::Config {
                        message: concat("No workspace context found for file: ", file_path),
                        path: Some(file_path.to_owned()),
                    },
                );
            },
        };
        let ids = self.get_source_ids_for_paths(active_files);
        let ghost before = self.resolution;
        let r = self.resolution.resolve_with_filter(key, context, &self.registry, Some(&ids));
        proof {
            let filter = Some(crate::resolution::order::filter_texts(Some(&ids)));
            let now = choose|now: u128| #[trigger]
                is_answer(
                    before,
                    self.resolution,
                    key@,
                    context@,
                    now,
                    r,
                    source_ids(self.registry.sources()),
                    filter,
                );
            assert(is_ids_of(id_texts(ids@), texts(active_files@)));
            assert(filter == Some(Some(id_texts(ids@))));
            assert(is_answer(
                old(self).resolution,
                self.resolution,
                key@,
                context@,
                now,
                r,
                source_ids(old(self).registry.sources()),
                Some(Some(id_texts(ids@))),
            ));
        }
        r
    }

    /// Lists the variables for a file, of which the caller gives the scope,
    /// if it has one, and the active files in canonical form. A file without
    /// scope is refused.
    pub fn all_for_file(
        &mut self,
        file_path: &str,
        context: Option<&WorkspaceContext>,
        active_files: &Vec<String>,
    ) -> (r: Result<Vec<Arc<ResolvedVariable>>, AbundantisError>)
        requires
            old(self).wf(),
            old(self).resolution.resolution().files.order@.len() < usize::MAX,
        ensures
            final(self).wf(),
            final(self).registry == old(self).registry,
            final(self).workspace == old(self).workspace,
            final(self).config == old(self).config,
            context is None ==> final(self).resolution == old(self).resolution && r is Err
                && is_no_context_error(r->Err_0, file_path@),
            context is Some ==> exists|ids: Seq<Seq<char>>|
                #![trigger is_ids_of(ids, texts(active_files@))]
                is_ids_of(ids, texts(active_files@)) && is_loaded_listing(
                    old(self).resolution,
                    final(self).resolution,
                    source_ids(old(self).registry.sources()),
                    Some(ids),
                    r,
                ),
    {
        let context = match context {
            Some(context) => context,
            None => {
                return Err(
                    AbundantisError::Config {
                        message: concat("No workspace context found for file: ", file_path),
                        path: Some(file_path.to_owned()),
                    },
                );
            },
        };
        let ids = self.get_source_ids_for_paths(active_files);
        let r = self.resolution.all_variables_with_filter(&self.registry, Some(&ids));
        proof {
            assert(is_ids_of(id_texts(ids@), texts(active_files@)));
            assert(crate::resolution::order::filter_texts(Some(&ids)) == Some(id_texts(ids@)));
        }
        r
    }

    /// What a refresh keeps of the settings of active files: nothing unless
    /// the options ask for it; else the settings as they are, and, where no
    /// files are active everywhere, `auto_files`, the files that are active
    /// for the workspace root, if there are any.
    pub fn file_config_backup(&self, options: &RefreshOptions, auto_files: &Vec<String>) -> (r:
        Option<FileConfigBackup>)
        ensures
            r is Some == options.preserve_file_config,
            r matches Some(backup) ==> scope_views(backup.directory@) == self.directory_files()
                && opt_texts(backup.global) == if self.global_files() is Some {
                self.global_files()
            } else if auto_files@.len() == 0 {
                None
            } else {
                Some(texts(auto_files@))
            },
    {
        if !options.preserve_file_config {
            return None;
        }
        let global = match &self.global_active_files {
            Some(patterns) => Some(clone_strings(patterns)),
            None => {
                if auto_files.len() == 0 {
                    None
                } else {
                    Some(clone_strings(auto_files))
                }
            },
        };
        Some(FileConfigBackup { global, directory: clone_scopes(&self.directory_active_files) })
    }

    /// Refreshes every source, the highest rank first.
    pub fn refresh_sources(&self, options: &RefreshOptions) {
        let source_options = SourceRefreshOptions { preserve_config: options.preserve_file_config };
        let sources = self.registry.sync_sources_by_priority();
        let mut i: usize = 0;
        while i < sources.len()
            invariant
                i <= sources.len(),
            decreases sources.len() - i,
        {
            sources[i].refresh(&source_options);
            i += 1;
        }
    }

    /// Whether a refresh with these options has to be told the files that
    /// are active for the workspace root: it keeps the settings, and no
    /// files are active everywhere.
    pub fn needs_auto_files(&self, options: &RefreshOptions) -> (r: bool)
        ensures
            r == (options.preserve_file_config && self.global_files() is None),
    {
        options.preserve_file_config && self.global_active_files.is_none()
    }

    /// Hands the events to the subscribers and obeys them: where one of them
    /// tells that cached resolutions are stale, the cache is emptied, so
    /// that the next question is answered from what the sources yield then.
    pub fn receive_events(&mut self, events: &Vec<AbundantisEvent>)
        ensures
            final(self).config == old(self).config,
            final(self).registry == old(self).registry,
            final(self).workspace == old(self).workspace,
            final(self).path_to_source_id == old(self).path_to_source_id,
            final(self).global_files() == old(self).global_files(),
            final(self).directory_files() == old(self).directory_files(),
            final(self).selector_root() == old(self).selector_root(),
            !tells_invalidation(events@) ==> final(self).resolution == old(self).resolution,
            tells_invalidation(events@) ==> is_emptied(old(self).resolution, final(self).resolution),
    {
        self.event_bus.publish_all(events);
        if any_invalidation(events) {
            self.resolution.clear_cache();
        }
    }

    /// A watched file has changed: what is to be told of the change is
    /// published and returned, and the cache is emptied, so that the next
    /// question sees what the file holds now. `before` is what the source
    /// of the file yielded before it was read again, `after` what it
    /// yields now.
    pub fn file_changed(
        &mut self,
        kind: ChangeKind,
        source_id: &SourceId,
        before: &SourceSnapshot,
        after: &SourceSnapshot,
    ) -> (r: Vec<AbundantisEvent>)
        ensures
            r@.len() == 2,
            is_variables_changed(
                r@[0],
                source_id@,
                keys_added(
                    kind,
                    variable_keys(before@.variables),
                    variable_keys(after@.variables),
                ),
                keys_removed(
                    kind,
                    variable_keys(before@.variables),
                    variable_keys(after@.variables),
                ),
            ),
            is_cache_invalidated(r@[1]),
            is_emptied(old(self).resolution, final(self).resolution),
            final(self).config == old(self).config,
            final(self).registry == old(self).registry,
            final(self).workspace == old(self).workspace,
            final(self).path_to_source_id == old(self).path_to_source_id,
            final(self).global_files() == old(self).global_files(),
            final(self).directory_files() == old(self).directory_files(),
            final(self).selector_root() == old(self).selector_root(),
    {
        let events = WatchManager::events_for(kind, source_id, before, after);
        proof {
            assert(events@[1] is CacheInvalidated);
            assert(tells_invalidation(events@));
        }
        self.receive_events(&events);
        events
    }

    /// Tells the subscribers that the whole cache is stale.
    pub fn publish_invalidation(&self) {
        self.event_bus.publish(AbundantisEvent::CacheInvalidated { scope: None });
    }

    /// Does to the registry what a rediscovery asks for: the sources that
    /// the caller has made for the new files are registered, in order, then
    /// the sources of the files that are gone are dropped, in order. What
    /// was resolved from the sources as they were is stale then, so the
    /// cache is emptied.
    pub fn apply_rediscovery(&mut self, created: &Vec<Arc<S>>, unregister: &Vec<SourceId>)
        requires
            old(self).registry.wf(),
        ensures
            final(self).registry.wf(),
            final(self).registry.sources() == without_sources(
                with_sources(old(self).registry.sources(), created@),
                id_texts(unregister@),
            ),
            final(self).registry.path_index() == without_all_filed(
                with_all_filed(old(self).registry.path_index(), created@),
                id_texts(unregister@),
            ),
            old(self).wf() ==> final(self).wf(),
            final(self).config == old(self).config,
            is_emptied(old(self).resolution, final(self).resolution),
            final(self).workspace == old(self).workspace,
            final(self).path_to_source_id == old(self).path_to_source_id,
            final(self).global_files() == old(self).global_files(),
            final(self).directory_files() == old(self).directory_files(),
    {
        self.registry.register_all(created);
        self.registry.unregister_all(unregister);
        self.resolution.clear_cache();
    }

    /// Ends a refresh: the settings that were kept are put back, the cache
    /// is emptied, the identities that were made for paths are forgotten,
    /// and the subscribers are told that the cache is stale.
    pub fn finish_refresh(&mut self, backup: Option<FileConfigBackup>)
        ensures
            final(self).wf(),
            final(self).known_ids().len() == 0,
            final(self).resolution.cache_state().hot() == Seq::<HotEntry>::empty(),
            final(self).resolution.cache_state().warm() == empty_warm(),
            final(self).registry == old(self).registry,
            final(self).workspace == old(self).workspace,
            final(self).config == old(self).config,
            final(self).global_files() == match backup {
                Some(kept) => opt_texts(kept.global),
                None => old(self).global_files(),
            },
            final(self).directory_files() == match backup {
                Some(kept) => scope_views(kept.directory@),
                None => old(self).directory_files(),
            },
    {
        match backup {
            Some(kept) => {
                self.global_active_files = kept.global;
                self.directory_active_files = kept.directory;
            },
            None => {},
        }
        self.forget();
        self.publish_invalidation();
    }

    /// Takes a new workspace: the cache is emptied and the identities that
    /// were made for paths are forgotten.
    pub fn set_root(&mut self, workspace: WorkspaceManager)
        ensures
            final(self).wf(),
            final(self).workspace == workspace,
            final(self).known_ids().len() == 0,
            final(self).resolution.cache_state().hot() == Seq::<HotEntry>::empty(),
            final(self).resolution.cache_state().warm() == empty_warm(),
            final(self).registry == old(self).registry,
            final(self).config == old(self).config,
            final(self).global_files() == old(self).global_files(),
            final(self).directory_files() == old(self).directory_files(),
    {
        self.workspace = workspace;
        self.forget();
    }

    /// What is to be done to the registry after the disk was searched for
    /// dotenv files: a source is to be made for each file that was
    /// discovered and has none; a source is to be dropped where its file was
    /// not discovered and is not on disk. `discovered` are the files that
    /// were found, `on_disk` those of the registered files that exist, all
    /// in canonical form.
    pub fn rediscover_file_sources(&self, discovered: &Vec<String>, on_disk: &Vec<String>) -> (r:
        Rediscovery)
        ensures
            texts(r.register@) == to_register(
                texts(discovered@),
                source_ids(self.registry.sources()),
            ),
            texts(r.register@).no_duplicates(),
            forall|path: Seq<char>|
                texts(r.register@).contains(path) <==> texts(discovered@).contains(path)
                    && !source_ids(self.registry.sources()).contains(file_id(path)),
            forall|id: Seq<char>|
                id_texts(r.unregister@).contains(id) ==> exists|path: Seq<char>|
                    #![trigger file_id(path)]
                    id == file_id(path) && self.registry.path_index().contains_key(path)
                        && !texts(discovered@).contains(path) && !texts(on_disk@).contains(path),
            forall|path: Seq<char>|
                #![trigger file_id(path)]
                self.registry.path_index().contains_key(path) && !texts(discovered@).contains(path)
                    && !texts(on_disk@).contains(path) ==> id_texts(r.unregister@).contains(
                    file_id(path),
                ),
    {
        let mut register: Vec<String> = Vec::new();
        let ghost found = texts(discovered@);
        let ghost ids = source_ids(self.registry.sources());
        let mut i: usize = 0;
        while i < discovered.len()
            invariant
                i <= discovered.len(),
                found == texts(discovered@),
                ids == source_ids(self.registry.sources()),
                texts(register@) == to_register(found.take(i as int), ids),
                texts(register@).no_duplicates(),
                forall|path: Seq<char>|
                    texts(register@).contains(path) <==> found.take(i as int).contains(path)
                        && !ids.contains(file_id(path)),
            decreases discovered.len() - i,
        {
            let path = discovered[i].as_str();
            let ghost before = texts(register@);
            let ghost seen = found.take(i as int);
            let ghost more = found.take(i + 1);
            proof {
                assert(more =~= seen.push(path@));
                assert(more.drop_last() =~= seen);
            }
            let id = SourceId::new(concat("file:", path).as_str());
            if !self.registry.is_registered(&id) && !contains_text(&register, path) {
                register.push(discovered[i].clone());
                proof {
                    assert(texts(register@) =~= before.push(path@));
                }
            }
            proof {
                let after = texts(register@);
                assert forall|x: Seq<char>| after.contains(x) <==> more.contains(x)
                    && !ids.contains(file_id(x)) by {
                    if after.contains(x) {
                        let w = choose|w: int| 0 <= w < after.len() && after[w] == x;
                        if w < before.len() {
                            assert(before[w] == x);
                            assert(before.contains(x));
                            let u = choose|u: int| 0 <= u < seen.len() && seen[u] == x;
                            assert(more[u] == x);
                        } else {
                            assert(more[i as int] == x);
                        }
                    }
                    if more.contains(x) && !ids.contains(file_id(x)) {
                        let u = choose|u: int| 0 <= u < more.len() && more[u] == x;
                        if u < i {
                            assert(seen[u] == x);
                            assert(seen.contains(x));
                            assert(before.contains(x));
                            let w = choose|w: int| 0 <= w < before.len() && before[w] == x;
                            assert(after[w] == x);
                        } else if before.contains(x) {
                            let w = choose|w: int| 0 <= w < before.len() && before[w] == x;
                            assert(after[w] == x);
                        } else {
                            assert(after[before.len() as int] == x);
                        }
                    }
                }
                if after.len() > before.len() {
                    assert forall|a: int, b: int|
                        0 <= a < after.len() && 0 <= b < after.len() && a != b implies after[a]
                        != after[b] by {
                        if a < before.len() && b < before.len() {
                            assert(before[a] != before[b]);
                        } else if a < before.len() {
                            assert(before.contains(before[a]));
                        } else {
                            assert(before.contains(before[b]));
                        }
                    }
                }
            }
            i += 1;
        }
        proof {
            assert(found.take(discovered.len() as int) =~= found);
        }
        let registered = self.registry.registered_file_paths();
        let ghost paths = texts(registered@);
        let mut unregister: Vec<SourceId> = Vec::new();
        let mut k: usize = 0;
        while k < registered.len()
            invariant
                k <= registered.len(),
                paths == texts(registered@),
                paths.to_set() == self.registry.path_index().dom(),
                forall|id: Seq<char>|
                    id_texts(unregister@).contains(id) ==> exists|path: Seq<char>|
                        #![trigger file_id(path)]
                        id == file_id(path) && self.registry.path_index().contains_key(path)
                            && !texts(discovered@).contains(path) && !texts(on_disk@).contains(
                            path,
                        ),
                forall|x: int|
                    0 <= x < k && !texts(discovered@).contains(#[trigger] paths[x]) && !texts(
                        on_disk@,
                    ).contains(paths[x]) ==> id_texts(unregister@).contains(file_id(paths[x])),
            decreases registered.len() - k,
        {
            let path = registered[k].as_str();
            let ghost before = id_texts(unregister@);
            proof {
                assert(paths[k as int] == path@);
                assert(paths.contains(path@));
                assert(paths.to_set().contains(path@));
            }
            if !contains_text(discovered, path) && !contains_text(on_disk, path) {
                let id = SourceId::new(concat("file:", path).as_str());
                unregister.push(id);
                proof {
                    assert(id_texts(unregister@) =~= before.push(file_id(path@)));
                }
            }
            proof {
                let after = id_texts(unregister@);
                assert forall|id: Seq<char>| after.contains(id) implies exists|p: Seq<char>|
                    #![trigger file_id(p)]
                    id == file_id(p) && self.registry.path_index().contains_key(p) && !texts(
                        discovered@,
                    ).contains(p) && !texts(on_disk@).contains(p) by {
                    let w = choose|w: int| 0 <= w < after.len() && after[w] == id;
                    if w < before.len() {
                        assert(before[w] == id);
                        assert(before.contains(id));
                    } else {
                        assert(id == file_id(path@));
                    }
                }
                assert forall|x: int|
                    0 <= x < k + 1 && !texts(discovered@).contains(#[trigger] paths[x]) && !texts(
                        on_disk@,
                    ).contains(paths[x]) implies after.contains(file_id(paths[x])) by {
                    if x < k {
                        assert(before.contains(file_id(paths[x])));
                        let w = choose|w: int| 0 <= w < before.len() && before[w] == file_id(paths[x]);
                        assert(after[w] == file_id(paths[x]));
                    } else {
                        assert(after[before.len() as int] == file_id(paths[x]));
                    }
                }
            }
            k += 1;
        }
        proof {
            assert forall|path: Seq<char>|
                #![trigger file_id(path)]
                self.registry.path_index().contains_key(path) && !texts(discovered@).contains(path)
                    && !texts(on_disk@).contains(path) implies id_texts(unregister@).contains(
                file_id(path),
            ) by {
                assert(paths.to_set().contains(path));
                assert(paths.contains(path));
                let x = choose|x: int| 0 <= x < paths.len() && paths[x] == path;
                assert(paths[x] == path);
            }
        }
        Rediscovery { register, unregister }
    }
}

/// The files among `found` that are to get a source, each once, in the
/// order in which they first stand: those whose identity is not among
/// `ids`.
pub open spec fn to_register(found: Seq<Seq<char>>, ids: Seq<Seq<char>>) -> Seq<Seq<char>>
    decreases found.len(),
{
    if found.len() == 0 {
        Seq::empty()
    } else if ids.contains(file_id(found.last())) || to_register(found.drop_last(), ids).contains(
        found.last(),
    ) {
        to_register(found.drop_last(), ids)
    } else {
        to_register(found.drop_last(), ids).push(found.last())
    }
}

/// Whether `ids` holds, each once, the identities of the file sources of
/// the paths.
pub open spec fn is_ids_of(ids: Seq<Seq<char>>, paths: Seq<Seq<char>>) -> bool {
    &&& ids.no_duplicates()
    &&& forall|id: Seq<char>| ids.contains(id) <==> file_ids(paths).contains(id)
}

/// Whether an error says that a file has no scope.
pub open spec fn is_no_context_error(e: AbundantisError, file_path: Seq<char>) -> bool {
    match e {
        AbundantisError::Config { message, path } => message@
            == "No workspace context found for file: "@ + file_path && path is Some && path->0@
            == file_path,
        _ => false,
    }
}

/// Whether a result refuses a file without scope.
pub open spec fn is_no_context(
    r: Result<Option<Arc<ResolvedVariable>>, AbundantisError>,
    file_path: Seq<char>,
) -> bool {
    match r {
        Err(e) => is_no_context_error(e, file_path),
        Ok(_) => false,
    }
}

} // verus!
