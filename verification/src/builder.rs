//! Collects the settings from which an instance is assembled.

use vstd::prelude::*;
use std::sync::Arc;
use crate::config::{
    is_default_config, AbundantisConfig, CacheConfig, InterpolationConfig, InterpolationFeatures,
    MonorepoProviderType, ResolutionConfig, SourceDefaults, SourcePrecedence, SourcesConfig,
    WorkspaceConfig,
};
use crate::config::{clone_resolution, same_resolution};
use crate::events::{EventBus, EventSubscriber};
use crate::facade::Abundantis;
use crate::resolution::cache::{empty_warm, HotEntry};
use crate::resolution::engine::ResolutionEngine;
use crate::selection::{scope_views, set_scope, DirectoryScope};
use crate::source::config::opt_texts;
use crate::source::registry::{
    empty_path_index, with_all_filed, with_sources, SourceRegistry,
};
use crate::source::traits::EnvSource;
use crate::text::{clone_strings, texts};
use crate::workspace::manager::WorkspaceManager;

verus! {

/// The sources that are handed in as they are to be registered: the file
/// sources where the files are switched on, the shell source where the
/// shell is.
pub open spec fn default_sources<S: EnvSource>(
    defaults: SourceDefaults,
    file_sources: Seq<Arc<S>>,
    shell_source: Option<Arc<S>>,
) -> Seq<Arc<S>> {
    (if defaults.file {
        file_sources
    } else {
        Seq::empty()
    }) + (if defaults.shell && shell_source is Some {
        seq![shell_source->0]
    } else {
        Seq::empty()
    })
}

/// Whether an engine is new and made as the configuration says.
pub open spec fn is_new_engine(engine: ResolutionEngine, config: AbundantisConfig) -> bool {
    &&& same_resolution(engine.resolution(), config.resolution)
    &&& engine.interpolation() == config.interpolation
    &&& engine.graph_edges().len() == 0
    &&& engine.graph_version() == 0
    &&& engine.cache_state().hot() == Seq::<HotEntry>::empty()
    &&& engine.cache_state().warm() == empty_warm()
    &&& engine.cache_state().enabled() == config.cache.enabled
    &&& engine.cache_state().capacity() == if config.cache.hot_cache_size == 0 {
        1
    } else {
        config.cache.hot_cache_size as nat
    }
    &&& engine.cache_state().ttl() == crate::clock::duration_nanos(config.cache.ttl)
}

/// The settings of an instance that is yet to be built.
pub struct AbundantisBuilder<S: EnvSource, E: EventSubscriber> {
    pub config: AbundantisConfig,
    pub custom_sources: Vec<Arc<S>>,
    pub subscribers: Vec<Arc<E>>,
    pub root: Option<String>,
    pub event_buffer_size: Option<usize>,
    pub active_files: Option<Vec<String>>,
    pub active_files_for_directory: Vec<DirectoryScope>,
}

impl<S: EnvSource, E: EventSubscriber> AbundantisBuilder<S, E> {
    /// A builder with the default configuration and nothing else.
    pub fn new() -> (r: Self)
        ensures
            r.custom_sources@.len() == 0,
            r.subscribers@.len() == 0,
            r.root is None,
            r.event_buffer_size is None,
            r.active_files is None,
            r.active_files_for_directory@.len() == 0,
            is_default_config(r.config),
    {
        AbundantisBuilder {
            config: AbundantisConfig::default(),
            custom_sources: Vec::new(),
            subscribers: Vec::new(),
            root: None,
            event_buffer_size: None,
            active_files: None,
            active_files_for_directory: Vec::new(),
        }
    }

    pub fn root(self, root: &str) -> (r: Self)
        ensures
            r.root matches Some(p) && p@ == root@,
            r == (AbundantisBuilder { root: r.root, ..self }),
    {
        let mut b = self;
        b.root = Some(root.to_owned());
        b
    }

    pub fn provider(self, provider: MonorepoProviderType) -> (r: Self)
        ensures
            r == (AbundantisBuilder {
                config: AbundantisConfig {
                    workspace: WorkspaceConfig {
                        provider: Some(provider),
                        ..self.config.workspace
                    },
                    ..self.config
                },
                ..self
            }),
    {
        let mut b = self;
        b.config.workspace.provider = Some(provider);
        b
    }

    pub fn roots(self, roots: Vec<String>) -> (r: Self)
        ensures
            r == (AbundantisBuilder {
                config: AbundantisConfig {
                    workspace: WorkspaceConfig { roots, ..self.config.workspace },
                    ..self.config
                },
                ..self
            }),
    {
        let mut b = self;
        b.config.workspace.roots = roots;
        b
    }

    pub fn cascading(self, enabled: bool) -> (r: Self)
        ensures
            r == (AbundantisBuilder {
                config: AbundantisConfig {
                    workspace: WorkspaceConfig { cascading: enabled, ..self.config.workspace },
                    ..self.config
                },
                ..self
            }),
    {
        let mut b = self;
        b.config.workspace.cascading = enabled;
        b
    }

    pub fn env_files(self, patterns: Vec<String>) -> (r: Self)
        ensures
            r == (AbundantisBuilder {
                config: AbundantisConfig {
                    workspace: WorkspaceConfig { env_files: patterns, ..self.config.workspace },
                    ..self.config
                },
                ..self
            }),
    {
        let mut b = self;
        b.config.workspace.env_files = patterns;
        b
    }

    pub fn ignores(self, patterns: Vec<String>) -> (r: Self)
        ensures
            r == (AbundantisBuilder {
                config: AbundantisConfig {
                    workspace: WorkspaceConfig { ignores: patterns, ..self.config.workspace },
                    ..self.config
                },
                ..self
            }),
    {
        let mut b = self;
        b.config.workspace.ignores = patterns;
        b
    }

    /// Lets the shell take part in resolution: where the precedence list does
    /// not name it yet, it is put first.
    pub fn with_shell(self) -> (r: Self)
        ensures
            r.config.resolution.precedence@ == if self.config.resolution.precedence@.contains(
                SourcePrecedence::Shell,
            ) {
                self.config.resolution.precedence@
            } else {
                seq![SourcePrecedence::Shell] + self.config.resolution.precedence@
            },
            r == (AbundantisBuilder {
                config: AbundantisConfig {
                    resolution: ResolutionConfig {
                        precedence: r.config.resolution.precedence,
                        ..self.config.resolution
                    },
                    ..self.config
                },
                ..self
            }),
    {
        let mut b = self;
        let mut found = false;
        let mut i: usize = 0;
        while i < b.config.resolution.precedence.len()
            invariant
                b == self,
                i <= b.config.resolution.precedence.len(),
                found == b.config.resolution.precedence@.take(i as int).contains(
                    SourcePrecedence::Shell,
                ),
            decreases b.config.resolution.precedence.len() - i,
        {
            let ghost before = b.config.resolution.precedence@.take(i as int);
            let ghost after = b.config.resolution.precedence@.take(i + 1);
            if b.config.resolution.precedence[i] == SourcePrecedence::Shell {
                found = true;
            }
            i += 1;
            proof {
                assert(after =~= before.push(b.config.resolution.precedence@[i - 1]));
                if before.contains(SourcePrecedence::Shell) {
                    let k = choose|k: int| 0 <= k < before.len() && before[k] == SourcePrecedence::Shell;
                    assert(after[k] == SourcePrecedence::Shell);
                }
                if b.config.resolution.precedence@[i - 1] == SourcePrecedence::Shell {
                    assert(after[i - 1] == SourcePrecedence::Shell);
                }
            }
        }
        assert(b.config.resolution.precedence@.take(i as int) =~= b.config.resolution.precedence@);
        if !found {
            b.config.resolution.precedence.insert(0, SourcePrecedence::Shell);
            assert(b.config.resolution.precedence@ =~= seq![SourcePrecedence::Shell]
                + self.config.resolution.precedence@);
        }
        b
    }

    pub fn precedence(self, precedence: Vec<SourcePrecedence>) -> (r: Self)
        ensures
            r == (AbundantisBuilder {
                config: AbundantisConfig {
                    resolution: ResolutionConfig { precedence, ..self.config.resolution },
                    ..self.config
                },
                ..self
            }),
    {
        let mut b = self;
        b.config.resolution.precedence = precedence;
        b
    }

    pub fn interpolation(self, enabled: bool) -> (r: Self)
        ensures
            r == (AbundantisBuilder {
                config: AbundantisConfig {
                    interpolation: InterpolationConfig { enabled, ..self.config.interpolation },
                    ..self.config
                },
                ..self
            }),
    {
        let mut b = self;
        b.config.interpolation.enabled = enabled;
        b
    }

    pub fn max_interpolation_depth(self, depth: u32) -> (r: Self)
        ensures
            r == (AbundantisBuilder {
                config: AbundantisConfig {
                    interpolation: InterpolationConfig {
                        max_depth: depth,
                        ..self.config.interpolation
                    },
                    ..self.config
                },
                ..self
            }),
    {
        let mut b = self;
        b.config.interpolation.max_depth = depth;
        b
    }

    pub fn interpolation_features(self, features: InterpolationFeatures) -> (r: Self)
        ensures
            r == (AbundantisBuilder {
                config: AbundantisConfig {
                    interpolation: InterpolationConfig { features, ..self.config.interpolation },
                    ..self.config
                },
                ..self
            }),
    {
        let mut b = self;
        b.config.interpolation.features = features;
        b
    }

    pub fn cache_enabled(self, enabled: bool) -> (r: Self)
        ensures
            r == (AbundantisBuilder {
                config: AbundantisConfig {
                    cache: CacheConfig { enabled, ..self.config.cache },
                    ..self.config
                },
                ..self
            }),
    {
        let mut b = self;
        b.config.cache.enabled = enabled;
        b
    }

    pub fn cache_size(self, size: usize) -> (r: Self)
        ensures
            r == (AbundantisBuilder {
                config: AbundantisConfig {
                    cache: CacheConfig { hot_cache_size: size, ..self.config.cache },
                    ..self.config
                },
                ..self
            }),
    {
        let mut b = self;
        b.config.cache.hot_cache_size = size;
        b
    }

    pub fn cache_ttl(self, ttl: std::time::Duration) -> (r: Self)
        ensures
            r == (AbundantisBuilder {
                config: AbundantisConfig {
                    cache: CacheConfig { ttl, ..self.config.cache },
                    ..self.config
                },
                ..self
            }),
    {
        let mut b = self;
        b.config.cache.ttl = ttl;
        b
    }

    pub fn source_defaults(self, defaults: SourceDefaults) -> (r: Self)
        ensures
            r == (AbundantisBuilder {
                config: AbundantisConfig { sources: SourcesConfig { defaults }, ..self.config },
                ..self
            }),
    {
        let mut b = self;
        b.config.sources.defaults = defaults;
        b
    }

    /// Adds a source of the caller's, after those added before.
    pub fn with_source(self, source: Arc<S>) -> (r: Self)
        ensures
            r == (AbundantisBuilder {
                custom_sources: r.custom_sources,
                ..self
            }),
            r.custom_sources@ == self.custom_sources@.push(source),
    {
        let mut b = self;
        b.custom_sources.push(source);
        b
    }

    /// Adds a subscriber, after those added before.
    pub fn subscribe(self, subscriber: Arc<E>) -> (r: Self)
        ensures
            r == (AbundantisBuilder { subscribers: r.subscribers, ..self }),
            r.subscribers@ == self.subscribers@.push(subscriber),
    {
        let mut b = self;
        b.subscribers.push(subscriber);
        b
    }

    pub fn event_buffer_size(self, size: usize) -> (r: Self)
        ensures
            r == (AbundantisBuilder { event_buffer_size: Some(size), ..self }),
    {
        let mut b = self;
        b.event_buffer_size = Some(size);
        b
    }

    /// Sets the patterns of the files that are active everywhere.
    pub fn active_files(self, patterns: &Vec<String>) -> (r: Self)
        ensures
            r.active_files matches Some(p) && p@ == patterns@,
            r == (AbundantisBuilder { active_files: r.active_files, ..self }),
    {
        let mut b = self;
        b.active_files = Some(clone_strings(patterns));
        b
    }

    /// Sets the patterns of the files that are active below `directory`,
    /// which the caller gives in canonical form. Patterns set for the same
    /// directory before are replaced.
    pub fn active_files_for_directory(self, directory: &str, patterns: &Vec<String>) -> (r: Self)
        ensures
            crate::selection::scope_views(r.active_files_for_directory@) == set_scope(
                crate::selection::scope_views(self.active_files_for_directory@),
                directory@,
                texts(patterns@),
            ),
            r == (AbundantisBuilder {
                active_files_for_directory: r.active_files_for_directory,
                ..self
            }),
    {
        let mut b = self;
        crate::selection::insert_scope(&mut b.active_files_for_directory, directory, patterns);
        b
    }

    /// Builds the instance, given what the caller has found on disk: the
    /// workspace at the canonical root `root`, a source for each dotenv
    /// file that was discovered, and a source for the shell. The custom
    /// sources are registered first, then the file sources, where files are
    /// switched on, then the shell source, where the shell is. The
    /// subscribers subscribe in their order.
    pub fn build(
        self,
        root: &str,
        workspace: WorkspaceManager,
        file_sources: &Vec<Arc<S>>,
        shell_source: Option<Arc<S>>,
    ) -> (r: Abundantis<S, E>)
        ensures
            r.wf(),
            r.config == self.config,
            r.workspace == workspace,
            r.registry.wf(),
            r.registry.sources() == with_sources(
                with_sources(Seq::empty(), self.custom_sources@),
                default_sources(self.config.sources.defaults, file_sources@, shell_source),
            ),
            r.registry.path_index() == with_all_filed(
                with_all_filed(empty_path_index(), self.custom_sources@),
                default_sources(self.config.sources.defaults, file_sources@, shell_source),
            ),
            is_new_engine(r.resolution, self.config),
            r.event_bus.subscribers() == self.subscribers@,
            r.global_files() == opt_texts(self.active_files),
            r.directory_files() == scope_views(self.active_files_for_directory@),
            r.known_ids().len() == 0,
            r.selector_root() == root@,
    {
        let ghost defaults = self.config.sources.defaults;
        let ghost wanted = default_sources(defaults, file_sources@, shell_source);
        let mut registry: SourceRegistry<S> = SourceRegistry::new();
        proof {
            assert(registry.sources() =~= Seq::<Arc<S>>::empty());
        }
        registry.register_all(&self.custom_sources);
        let ghost custom = registry.sources();
        let ghost custom_index = registry.path_index();
        if self.config.sources.defaults.file {
            registry.register_all(file_sources);
        }
        let ghost filed = registry.sources();
        let ghost filed_index = registry.path_index();
        let ghost files = if defaults.file {
            file_sources@
        } else {
            Seq::<Arc<S>>::empty()
        };
        proof {
            assert(filed == with_sources(custom, files));
            assert(filed_index == with_all_filed(custom_index, files));
        }
        if self.config.sources.defaults.shell {
            match shell_source {
                Some(shell) => {
                    let _ = registry.register_sync(shell);
                    proof {
                        assert(wanted =~= files.push(shell));
                        assert(wanted.drop_last() =~= files);
                        assert(wanted.last() == shell);
                    }
                },
                None => {
                    proof {
                        assert(wanted =~= files);
                    }
                },
            }
        } else {
            proof {
                assert(wanted =~= files);
            }
        }
        proof {
            assert(registry.sources() == with_sources(custom, wanted));
            assert(registry.path_index() == with_all_filed(custom_index, wanted));
        }
        let engine = ResolutionEngine::new(
            clone_resolution(&self.config.resolution),
            self.config.interpolation,
            &self.config.cache,
        );
        let size = match self.event_buffer_size {
            Some(size) => size,
            None => 256,
        };
        let mut bus: EventBus<E> = EventBus::new(size);
        let mut i: usize = 0;
        while i < self.subscribers.len()
            invariant
                i <= self.subscribers.len(),
                bus.subscribers() == self.subscribers@.take(i as int),
            decreases self.subscribers.len() - i,
        {
            bus.subscribe(self.subscribers[i].clone());
            proof {
                assert(self.subscribers@.take(i + 1) =~= self.subscribers@.take(i as int).push(
                    self.subscribers@[i as int],
                ));
            }
            i += 1;
        }
        proof {
            assert(self.subscribers@.take(self.subscribers.len() as int) =~= self.subscribers@);
        }
        Abundantis::assemble(
            self.config,
            registry,
            engine,
            workspace,
            bus,
            root,
            self.active_files,
            self.active_files_for_directory,
        )
    }
}

} // verus!
