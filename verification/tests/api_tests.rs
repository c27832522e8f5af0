use abundantis::builder::AbundantisBuilder;
use abundantis::config::{
    clone_resolution, default_true, AbundantisConfig, CacheConfig, FileMergeMode, FileResolutionConfig,
    InterpolationConfig, InterpolationFeatures, MonorepoProviderType, ResolutionConfig,
    SourcePrecedence,
};
use abundantis::events::{
    any_invalidation, without_marked, AbundantisEvent, EventBus, EventSubscriber,
};
use abundantis::resolution::engine::filter_by_source_type;
use abundantis::paths::sort_paths;
use abundantis::source::dotenv::parse_pairs;
use abundantis::facade::{resolve_provider, Abundantis};
use abundantis::resolution::{CacheKey, DependencyGraph, ResolutionCache, ResolutionEngine, ResolvedVariable};
use abundantis::selection::{
    all_files_among, files_among, DirectoryScope, FileSelection, GlobMatch,
};
use abundantis::source::config::{FileSourceConfig, SourceRefreshOptions};
use abundantis::source::traits::SourceSnapshot;
use abundantis::source::{
    EnvSource, FileSourceManager, MemorySource, ParsedVariable, Priority, SourceId, SourceRegistry,
    SourceType, VariableSource,
};
use abundantis::watch::{ChangeKind, EventPath, WatchEventKind};
use abundantis::watch_manager::{keys_missing_from, WatchManager};
use abundantis::workspace::{TreeEntry, WorkspaceContext, WorkspaceManager};
use std::sync::{Arc, Mutex};
use std::time::Duration;

struct Quiet;

impl EventSubscriber for Quiet {
    fn on_event(&self, _event: &AbundantisEvent) {}
}

fn list(items: &[&str]) -> Vec<String> {
    items.iter().map(|s| s.to_string()).collect()
}

fn value_of(key: &str, value: &str) -> Arc<ResolvedVariable> {
    Arc::new(ResolvedVariable {
        key: key.to_string(),
        raw_value: value.to_string(),
        resolved_value: value.to_string(),
        source: VariableSource::Memory,
        description: None,
        has_warnings: false,
        interpolation_depth: 0,
    })
}

fn workspace_at(root: &str) -> WorkspaceManager {
    let config = resolve_provider(AbundantisConfig::default().workspace, None);
    let entries = vec![TreeEntry {
        path: root.to_string(),
        names: Vec::new(),
        depth: 0,
        is_dir: true,
        content: None,
    }];
    WorkspaceManager::with_root(root, config, &entries).unwrap()
}

fn instance_at(root: &str) -> Abundantis<MemorySource, Quiet> {
    let config = AbundantisConfig::default();
    let mut registry = SourceRegistry::new();
    let mut memory = MemorySource::new();
    memory.set("K", "v");
    registry.register_sync(Arc::new(memory));
    let engine = ResolutionEngine::new(
        ResolutionConfig::default(),
        InterpolationConfig::default(),
        &CacheConfig::default(),
    );
    Abundantis::assemble(
        config,
        registry,
        engine,
        workspace_at(root),
        EventBus::new(16),
        root,
        None,
        Vec::new(),
    )
}

#[test]
fn default_builder_holds_the_default_configuration() {
    let builder: AbundantisBuilder<MemorySource, Quiet> = AbundantisBuilder::new();
    let config = &builder.config;
    assert_eq!(config.workspace.root, None);
    assert_eq!(config.workspace.provider, None);
    assert!(config.workspace.roots.is_empty());
    assert!(!config.workspace.cascading);
    assert_eq!(config.workspace.env_files, list(&[".env", ".env.local", ".env.development", ".env.production"]));
    assert_eq!(
        config.resolution.precedence,
        vec![SourcePrecedence::Shell, SourcePrecedence::File]
    );
    assert_eq!(config.resolution.files.mode, FileMergeMode::Merge);
    assert_eq!(config.resolution.files.order, list(&[".env", ".env.local"]));
    assert!(config.resolution.type_check);
    assert!(config.interpolation.enabled);
    assert_eq!(config.interpolation.max_depth, 64);
    assert!(config.interpolation.features.defaults);
    assert!(config.interpolation.features.alternates);
    assert!(config.interpolation.features.recursion);
    assert!(!config.interpolation.features.commands);
    assert!(config.cache.enabled);
    assert_eq!(config.cache.hot_cache_size, 1000);
    assert_eq!(config.cache.ttl, Duration::from_secs(300));
    assert!(config.sources.defaults.shell);
    assert!(config.sources.defaults.file);
    assert!(!config.sources.defaults.remote);
    assert!(default_true());
}

#[test]
fn builder_takes_the_interpolation_features() {
    let features =
        InterpolationFeatures { defaults: false, alternates: true, recursion: false, commands: true };
    let builder: AbundantisBuilder<MemorySource, Quiet> =
        AbundantisBuilder::new().max_interpolation_depth(7).interpolation_features(features);
    assert_eq!(builder.config.interpolation.features, features);
    assert_eq!(builder.config.interpolation.max_depth, 7);
    assert!(builder.config.interpolation.enabled);
}

#[test]
fn cleanup_drops_what_has_expired() {
    let config = CacheConfig { enabled: true, hot_cache_size: 4, ttl: Duration::from_nanos(100) };
    let mut cache = ResolutionCache::new(&config);
    cache.insert_at(CacheKey::new("OLD", 1), value_of("OLD", "1"), 10);
    cache.insert_at(CacheKey::new("NEW", 1), value_of("NEW", "2"), 80);
    assert_eq!(cache.len(), 4);
    cache.cleanup_expired_at(120);
    assert_eq!(cache.len(), 2);
    assert!(cache.get_at(&CacheKey::new("OLD", 1), 120).is_none());
    assert_eq!(cache.get_at(&CacheKey::new("NEW", 1), 120).unwrap().resolved_value, "2");
    cache.cleanup_expired_at(180);
    assert!(cache.is_empty());
}

#[test]
fn cleanup_by_the_clock_empties_a_cache_without_lifetime() {
    let config = CacheConfig { enabled: true, hot_cache_size: 4, ttl: Duration::from_secs(0) };
    let mut cache = ResolutionCache::new(&config);
    cache.insert(CacheKey::new("A", 1), value_of("A", "1"));
    cache.insert(CacheKey::new("B", 1), value_of("B", "2"));
    assert_eq!(cache.len(), 4);
    cache.cleanup_expired();
    assert_eq!(cache.len(), 0);
    let lasting = CacheConfig { enabled: true, hot_cache_size: 4, ttl: Duration::from_secs(3600) };
    let mut cache = ResolutionCache::new(&lasting);
    cache.insert(CacheKey::new("A", 1), value_of("A", "1"));
    cache.cleanup_expired();
    assert_eq!(cache.len(), 2);
    assert_eq!(cache.get(&CacheKey::new("A", 1)).unwrap().resolved_value, "1");
}

fn snapshot_named(id: &str) -> SourceSnapshot {
    SourceSnapshot::new(
        SourceId::new(id),
        vec![ParsedVariable::simple("K", id, VariableSource::Memory)],
        None,
    )
}

#[test]
fn snapshots_are_put_in_file_order() {
    let resolution = ResolutionConfig {
        precedence: vec![SourcePrecedence::File],
        files: FileResolutionConfig { mode: FileMergeMode::Merge, order: list(&[".env", ".env.local"]) },
        type_check: true,
    };
    let engine =
        ResolutionEngine::new(resolution, InterpolationConfig::default(), &CacheConfig::default());
    let snapshots = vec![
        snapshot_named("memory"),
        snapshot_named("file:/w/.env.local"),
        snapshot_named("file:/w/.env.other"),
        snapshot_named("file:/w/.env"),
        snapshot_named("file:/w/pkg/.env.local"),
    ];
    assert_eq!(engine.sort_snapshots_by_file_order(&snapshots), vec![0, 3, 1, 4, 2]);
    assert!(engine.sort_snapshots_by_file_order(&Vec::new()).is_empty());
}

#[test]
fn a_new_root_empties_the_cache_and_keeps_the_settings() {
    let mut instance = instance_at("/w");
    let context = WorkspaceContext {
        workspace_root: "/w".to_string(),
        package_root: "/w".to_string(),
        package_name: None,
        env_files: Vec::new(),
    };
    instance.set_active_files(&list(&[".env.x"]));
    instance.get_source_ids_for_paths(&list(&["/w/.env"]));
    assert!(instance.get_in_context("K", &context).unwrap().is_some());
    assert!(instance.stats().cached_variables > 0);
    assert_eq!(instance.path_to_source_id.len(), 1);
    instance.set_root(workspace_at("/other"));
    assert_eq!(instance.stats().cached_variables, 0);
    assert!(instance.path_to_source_id.is_empty());
    assert_eq!(instance.workspace.root(), "/other");
    assert_eq!(instance.global_active_files, Some(list(&[".env.x"])));
    assert_eq!(instance.stats().source_count, 1);
}

#[test]
fn the_instance_plans_with_its_own_settings() {
    let mut instance = instance_at("/w");
    let plan = instance.plan_active_env_files("/w/a/f", "/w/a/f", &Vec::new());
    assert!(matches!(plan.general, FileSelection::AutoDiscover { ref for_path } if for_path == "/w/a/f"));
    assert!(plan.scoped.is_none());
    instance.set_active_files(&list(&["*.env"]));
    instance.set_active_files_for_directory("/w/a", &list(&[".env.a"]));
    let plan = instance.plan_active_env_files("/w/a/f", "/w/a/f", &list(&["/w/a"]));
    match plan.general {
        FileSelection::Patterns { base_dir, patterns } => {
            assert_eq!(base_dir, "/w");
            assert_eq!(patterns, list(&["*.env"]));
        },
        _ => panic!("expected the general patterns"),
    }
    match plan.scoped {
        Some(FileSelection::Patterns { base_dir, patterns }) => {
            assert_eq!(base_dir, "/w/a");
            assert_eq!(patterns, list(&[".env.a"]));
        },
        _ => panic!("expected the patterns of the directory"),
    }
    let plan = instance.plan_active_env_files("/w/b/f", "/w/b/f", &list(&["/w/a"]));
    assert!(plan.scoped.is_none());
}

#[test]
fn the_file_manager_plans_with_its_own_settings() {
    let mut manager: FileSourceManager<MemorySource> = FileSourceManager::new("/w");
    let plan = manager.active_files_for_path("/w/a/f", "/w/a/f", &Vec::new());
    assert!(matches!(plan.general, FileSelection::AutoDiscover { .. }));
    assert!(plan.scoped.is_none());
    manager.apply_config(FileSourceConfig {
        active_files: Some(list(&[".env.shared"])),
        directory_overrides: vec![
            DirectoryScope { directory: "/w/a".to_string(), patterns: list(&[".env.a"]) },
            DirectoryScope { directory: "/w/a/deep".to_string(), patterns: list(&[".env.deep"]) },
        ],
    });
    assert_eq!(manager.get_active_files(), Some(list(&[".env.shared"])));
    assert_eq!(manager.get_directory_overrides().len(), 2);
    let canonical = list(&["/w/a", "/w/a/deep"]);
    let plan = manager.active_files_for_path("/w/a/deep/f", "/w/a/deep/f", &canonical);
    assert!(matches!(plan.general, FileSelection::Patterns { ref patterns, .. } if patterns == &list(&[".env.shared"])));
    assert!(matches!(plan.scoped, Some(FileSelection::Patterns { ref base_dir, .. }) if base_dir == "/w/a/deep"));
    let plan = manager.active_files_for_path("/w/a/f", "/w/a/f", &canonical);
    assert!(matches!(plan.scoped, Some(FileSelection::Patterns { ref base_dir, .. }) if base_dir == "/w/a"));
}

#[test]
fn the_bus_counts_its_subscribers() {
    let mut bus: EventBus<Quiet> = EventBus::new(8);
    assert_eq!(bus.subscriber_count(), 0);
    let first = Arc::new(Quiet);
    let second = Arc::new(Quiet);
    bus.subscribe(first.clone());
    bus.subscribe(second);
    bus.subscribe(first.clone());
    assert_eq!(bus.subscriber_count(), 3);
    bus.unsubscribe(&first);
    assert_eq!(bus.subscriber_count(), 1);
    bus.publish(AbundantisEvent::CacheInvalidated { scope: None });
    assert_eq!(bus.subscriber_count(), 1);
}

#[test]
fn each_kind_of_source_has_its_rank() {
    assert_eq!(SourceType::Shell.default_priority(), Priority(100));
    assert_eq!(SourceType::Remote.default_priority(), Priority(75));
    assert_eq!(SourceType::File.default_priority(), Priority(50));
    assert_eq!(SourceType::Memory.default_priority(), Priority(30));
    assert_eq!(SourceType::Shell.default_priority(), Priority::SHELL());
    assert_eq!(SourceType::Remote.default_priority(), Priority::REMOTE());
    assert_eq!(SourceType::File.default_priority(), Priority::FILE());
    assert_eq!(SourceType::Memory.default_priority(), Priority::MEMORY());
}

#[test]
fn refresh_options_of_a_source() {
    assert!(SourceRefreshOptions::preserve().preserve_config);
    assert!(!SourceRefreshOptions::reset().preserve_config);
}

#[test]
fn the_watch_manager_lists_what_it_watches() {
    let mut manager = WatchManager::new();
    assert!(manager.watched_files().is_empty());
    manager.watch_file("/w/.env", "/real/w/.env", &SourceId::new("file:/w/.env"));
    manager.watch_file("/w/.env.local", "/real/w/.env.local", &SourceId::new("file:/w/.env.local"));
    manager.watch_file("/w/.env", "/real/w/.env", &SourceId::new("file:/w/.env"));
    assert_eq!(manager.watched_files(), list(&["/real/w/.env", "/real/w/.env.local"]));
    assert!(manager.is_watching("/real/w/.env"));
    assert!(!manager.is_watching("/w/.env"));
    manager.unwatch_file("/w/.env", "/real/w/.env");
    assert_eq!(manager.watched_files(), list(&["/real/w/.env.local"]));
}

#[test]
fn missing_keys_keep_the_order_of_their_first_place() {
    assert_eq!(
        keys_missing_from(&list(&["d", "a", "c", "a", "b", "d"]), &list(&["c", "x"])),
        list(&["d", "a", "b"])
    );
    assert!(keys_missing_from(&Vec::new(), &list(&["a"])).is_empty());
    assert_eq!(keys_missing_from(&list(&["a", "a"]), &Vec::new()), list(&["a"]));
}

#[test]
fn the_search_reports_the_first_circle_in_the_order_of_the_references() {
    let mut graph = DependencyGraph::new();
    graph.add_edge("A".to_string(), "B".to_string(), None);
    graph.add_edge("A".to_string(), "C".to_string(), None);
    graph.add_edge("B".to_string(), "D".to_string(), None);
    graph.add_edge("C".to_string(), "A".to_string(), None);
    graph.add_edge("D".to_string(), "E".to_string(), None);
    assert_eq!(graph.detect_cycle("A"), list(&["A", "C"]));
    graph.add_edge("E".to_string(), "B".to_string(), None);
    assert_eq!(graph.detect_cycle("A"), list(&["A", "B", "D", "E"]));
    assert_eq!(graph.detect_cycle("E"), list(&["E", "B", "D"]));
    assert_eq!(graph.detect_cycle("C"), list(&["C", "A", "B", "D", "E"]));
}

#[test]
fn a_provider_that_is_configured_is_kept() {
    let mut workspace = AbundantisConfig::default().workspace;
    workspace.provider = Some(MonorepoProviderType::Turbo);
    let resolved = resolve_provider(workspace, Some(MonorepoProviderType::Pnpm));
    assert_eq!(resolved.provider, Some(MonorepoProviderType::Turbo));
}

#[test]
fn marked_handles_are_left_out() {
    let handles: Vec<Arc<u32>> = vec![Arc::new(1), Arc::new(2), Arc::new(3), Arc::new(4)];
    let kept = without_marked(&handles, &vec![false, true, false, true]);
    assert_eq!(kept.iter().map(|h| **h).collect::<Vec<u32>>(), vec![1, 3]);
    assert!(Arc::ptr_eq(&kept[0], &handles[0]));
    assert!(without_marked(&handles, &vec![true, true, true, true]).is_empty());
    assert_eq!(without_marked(&handles, &vec![false, false, false, false]).len(), 4);
    let none: Vec<Arc<u32>> = Vec::new();
    assert!(without_marked(&none, &Vec::new()).is_empty());
}

#[test]
fn dotenv_text_gives_its_pairs_in_order() {
    let pairs = parse_pairs("A=1\n# note\nB=2\n");
    let seen: Vec<(&str, &str)> = pairs.iter().map(|p| (p.key.as_str(), p.value.as_str())).collect();
    assert_eq!(seen, vec![("A", "1"), ("B", "2")]);
    assert!(pairs.iter().all(|p| !p.is_comment));
    assert_eq!(pairs[0].key_offset, Some(0));
    assert_eq!(pairs[1].key_offset, Some(11));
    assert!(parse_pairs("").is_empty());
}

#[test]
fn sources_come_highest_rank_first_and_keep_their_order() {
    let mut registry: SourceRegistry<MemorySource> = SourceRegistry::new();
    assert!(registry.load_all().unwrap().is_empty());
    assert!(registry.sync_sources_by_priority().is_empty());
    registry.register_sync(Arc::new(MemorySource::new()));
    let sorted = registry.sync_sources_by_priority();
    assert_eq!(sorted.len(), 1);
    assert_eq!(sorted[0].id().as_str(), "memory");
    assert!(registry.sources_for_paths(&list(&["/w/.env"])).is_empty());
}

#[test]
fn candidate_files_stand_under_the_root_and_each_package() {
    let manager = workspace_at("/w");
    assert_eq!(
        manager.candidate_env_files(),
        list(&[
            "/w/.env",
            "/w/.env.local",
            "/w/.env.development",
            "/w/.env.production",
            "/w/.env",
            "/w/.env.local",
            "/w/.env.development",
            "/w/.env.production",
        ])
    );
}

#[test]
fn paths_are_sorted_by_their_components() {
    assert_eq!(
        sort_paths(list(&["/w/b", "/w/a/z", "/w/a", "/w/a.env", "/w/a/b"])),
        list(&["/w/a", "/w/a/b", "/w/a/z", "/w/a.env", "/w/b"])
    );
    assert!(sort_paths(Vec::new()).is_empty());
}

struct Recorder {
    seen: Mutex<Vec<String>>,
}

impl EventSubscriber for Recorder {
    fn on_event(&self, event: &AbundantisEvent) {
        let name = match event {
            AbundantisEvent::SourceAdded { .. } => "added",
            AbundantisEvent::SourceRemoved { .. } => "removed",
            AbundantisEvent::VariablesChanged { .. } => "changed",
            AbundantisEvent::CacheInvalidated { .. } => "invalidated",
        };
        self.seen.lock().unwrap().push(name.to_string());
    }
}

fn memory_with(key: &str, value: &str) -> Arc<MemorySource> {
    let mut memory = MemorySource::new();
    memory.set(key, value);
    Arc::new(memory)
}

#[test]
fn the_builder_builds_what_it_describes() {
    let recorder = Arc::new(Recorder { seen: Mutex::new(Vec::new()) });
    let builder: AbundantisBuilder<MemorySource, Recorder> = AbundantisBuilder::new()
        .with_source(memory_with("A", "custom"))
        .subscribe(recorder.clone())
        .active_files(&list(&[".env.x"]))
        .cache_size(7)
        .max_interpolation_depth(3);
    let mut instance = builder.build("/w", workspace_at("/w"), &vec![memory_with("A", "file")], None);
    assert_eq!(instance.stats().source_count, 1);
    assert_eq!(instance.workspace.root(), "/w");
    assert_eq!(instance.global_active_files, Some(list(&[".env.x"])));
    assert!(instance.directory_active_files.is_empty());
    assert!(instance.path_to_source_id.is_empty());
    assert_eq!(instance.config().interpolation.max_depth, 3);
    assert_eq!(instance.config().cache.hot_cache_size, 7);
    assert_eq!(instance.event_bus().subscriber_count(), 1);
    assert_eq!(instance.registry.load_all().unwrap()[0].variables[0].raw_value, "file");
    instance.publish_invalidation();
    instance.finish_refresh(None);
    assert_eq!(*recorder.seen.lock().unwrap(), list(&["invalidated", "invalidated"]));
}

#[test]
fn the_builder_leaves_out_the_sources_that_are_switched_off() {
    let off = abundantis::config::SourceDefaults { shell: false, file: false, remote: false };
    let builder: AbundantisBuilder<MemorySource, Quiet> =
        AbundantisBuilder::new().source_defaults(off);
    let instance = builder.build(
        "/w",
        workspace_at("/w"),
        &vec![memory_with("A", "file")],
        Some(memory_with("A", "shell")),
    );
    assert_eq!(instance.stats().source_count, 0);
    assert_eq!(instance.event_bus().subscriber_count(), 0);
}

#[test]
fn several_sources_are_registered_and_dropped_in_order() {
    let mut registry: SourceRegistry<MemorySource> = SourceRegistry::new();
    registry.register_all(&vec![memory_with("A", "1"), memory_with("A", "2")]);
    assert_eq!(registry.source_count(), 1);
    assert_eq!(registry.load_all().unwrap()[0].variables[0].raw_value, "2");
    registry.unregister_all(&vec![SourceId::new("other"), SourceId::new("memory")]);
    assert_eq!(registry.source_count(), 0);
    registry.unregister_all(&Vec::new());
    registry.register_all(&Vec::new());
    assert_eq!(registry.source_count(), 0);
}

#[test]
fn a_rediscovery_is_applied_to_the_registry() {
    let mut instance = instance_at("/w");
    assert_eq!(instance.stats().source_count, 1);
    instance.apply_rediscovery(&vec![memory_with("N", "new")], &Vec::new());
    assert_eq!(instance.stats().source_count, 1);
    assert_eq!(instance.registry.load_all().unwrap()[0].variables[0].key, "N");
    instance.apply_rediscovery(&Vec::new(), &vec![SourceId::new("memory")]);
    assert_eq!(instance.stats().source_count, 0);
}

#[test]
fn a_refresh_asks_for_the_files_of_the_root_only_where_it_keeps_the_settings() {
    let mut instance = instance_at("/w");
    assert!(instance.needs_auto_files(&abundantis::RefreshOptions::preserve_all()));
    assert!(!instance.needs_auto_files(&abundantis::RefreshOptions::reset_all()));
    instance.set_active_files(&list(&[".env.x"]));
    assert!(!instance.needs_auto_files(&abundantis::RefreshOptions::preserve_all()));
}

#[test]
fn the_files_of_the_packages_are_looked_for_under_each_root() {
    let manager = workspace_at("/w");
    assert_eq!(
        manager.env_file_patterns(),
        list(&["/w/.env", "/w/.env.local", "/w/.env.development", "/w/.env.production"])
    );
}

#[test]
fn the_files_among_matches_keep_the_order_of_the_matches() {
    let first = vec![
        GlobMatch { path: "/w/z.env".to_string(), is_file: true },
        GlobMatch { path: "/w/dir.env".to_string(), is_file: false },
        GlobMatch { path: "/w/a.env".to_string(), is_file: true },
    ];
    let second = vec![GlobMatch { path: "/w/a.env".to_string(), is_file: true }];
    assert_eq!(files_among(&first), list(&["/w/z.env", "/w/a.env"]));
    assert!(files_among(&Vec::new()).is_empty());
    assert_eq!(
        all_files_among(&vec![first, Vec::new(), second]),
        list(&["/w/z.env", "/w/a.env", "/w/a.env"])
    );
    assert!(all_files_among(&Vec::new()).is_empty());
}

#[test]
fn resolution_settings_are_copied() {
    let settings = ResolutionConfig {
        precedence: vec![SourcePrecedence::Remote, SourcePrecedence::File],
        files: FileResolutionConfig { mode: FileMergeMode::Override, order: list(&[".env.b", ".env.a"]) },
        type_check: false,
    };
    let copy = clone_resolution(&settings);
    assert_eq!(copy.precedence, settings.precedence);
    assert_eq!(copy.files.mode, FileMergeMode::Override);
    assert_eq!(copy.files.order, list(&[".env.b", ".env.a"]));
    assert!(!copy.type_check);
}

#[test]
fn the_watch_manager_keeps_the_changes_of_its_sources() {
    let mut manager = WatchManager::new();
    manager.watch_file("/w/.env", "/real/w/.env", &SourceId::new("file:/w/.env"));
    manager.watch_file("/w/.env.local", "/real/w/.env.local", &SourceId::new("file:/w/.env.local"));
    let paths = vec![
        EventPath { path: "/w/.env.local".to_string(), canonical: "/real/w/.env.local".to_string() },
        EventPath { path: "/w/other".to_string(), canonical: "/real/w/other".to_string() },
        EventPath { path: "/link/.env".to_string(), canonical: "/real/w/.env".to_string() },
        EventPath { path: "/w/.env".to_string(), canonical: "/real/w/.env".to_string() },
    ];
    let changes = manager.changes(WatchEventKind::Modify, &paths);
    let seen: Vec<(&str, ChangeKind)> = changes.iter().map(|c| (c.path.as_str(), c.kind)).collect();
    assert_eq!(seen, vec![("/w/.env.local", ChangeKind::Modified), ("/w/.env", ChangeKind::Modified)]);
    assert_eq!(manager.changes(WatchEventKind::Remove, &paths)[0].kind, ChangeKind::Deleted);
    assert!(manager.changes(WatchEventKind::Other, &paths).is_empty());
    assert!(manager.changes(WatchEventKind::Create, &Vec::new()).is_empty());
}

#[test]
fn a_discovery_looks_under_the_root_and_under_the_package() {
    let selector = abundantis::selection::ActiveFileSelector::new("/w");
    let names = abundantis::selection::auto_discovery_priority();
    let candidates = selector.discovery_candidates("/w/pkg");
    assert_eq!(candidates.len(), 2 * names.len());
    for (k, name) in names.iter().enumerate() {
        assert_eq!(candidates[k], format!("/w/{}", name));
        assert_eq!(candidates[names.len() + k], format!("/w/pkg/{}", name));
    }
    assert_eq!(candidates[0], "/w/.env.local");
}

#[test]
fn the_file_manager_keeps_what_was_made_for_a_new_path() {
    let mut manager: FileSourceManager<MemorySource> = FileSourceManager::new("/w");
    assert!(manager.get_or_create("/w/.env", None).is_none());
    assert!(manager.is_empty());
    let first = memory_with("A", "1");
    let kept = manager.get_or_create("/w/.env", Some(first.clone())).unwrap();
    assert!(Arc::ptr_eq(&kept, &first));
    assert_eq!(manager.len(), 1);
    let again = manager.get_or_create("/w/.env", Some(memory_with("A", "2"))).unwrap();
    assert!(Arc::ptr_eq(&again, &first));
    assert!(Arc::ptr_eq(&manager.get_or_create("/w/.env", None).unwrap(), &first));
    assert_eq!(manager.len(), 1);
}

#[test]
fn the_instance_lists_the_active_files_of_a_plan() {
    let mut instance = instance_at("/w");
    instance.set_active_files_for_directory("/w/pkg", &list(&[".env.staging"]));
    let plan = instance.plan_active_env_files("/w/pkg/src/main", "/w/pkg/src/main", &list(&["/w/pkg"]));
    let general = abundantis::selection::SelectionFacts::Discovered {
        package_root: "/w".to_string(),
        packages: 1,
        existing: list(&["/w/.env"]),
    };
    let scoped = abundantis::selection::SelectionFacts::Globbed {
        found: vec![Some(vec![GlobMatch { path: "/w/pkg/.env.staging".to_string(), is_file: true }])],
    };
    assert_eq!(
        instance.active_env_files(&plan, &general, &scoped),
        list(&["/w/.env", "/w/pkg/.env.staging"])
    );
}

#[test]
fn a_change_of_a_watched_file_empties_the_cache() {
    let recorder = Arc::new(Recorder { seen: Mutex::new(Vec::new()) });
    let builder: AbundantisBuilder<MemorySource, Recorder> =
        AbundantisBuilder::new().with_source(memory_with("K", "old")).subscribe(recorder.clone());
    let mut instance = builder.build("/w", workspace_at("/w"), &Vec::new(), None);
    let context = WorkspaceContext {
        workspace_root: "/w".to_string(),
        package_root: "/w".to_string(),
        package_name: None,
        env_files: Vec::new(),
    };
    assert_eq!(instance.get_in_context("K", &context).unwrap().unwrap().resolved_value, "old");
    assert!(instance.stats().cached_variables > 0);
    let before = SourceSnapshot::new(
        SourceId::new("file:/w/.env"),
        vec![ParsedVariable::simple("K", "old", VariableSource::Memory)],
        Some(1),
    );
    let after = SourceSnapshot::new(
        SourceId::new("file:/w/.env"),
        vec![
            ParsedVariable::simple("K", "new", VariableSource::Memory),
            ParsedVariable::simple("N", "1", VariableSource::Memory),
        ],
        Some(2),
    );
    let events =
        instance.file_changed(ChangeKind::Modified, &SourceId::new("file:/w/.env"), &before, &after);
    assert_eq!(events.len(), 2);
    match &events[0] {
        AbundantisEvent::VariablesChanged { source_id, added, removed } => {
            assert_eq!(source_id.as_str(), "file:/w/.env");
            assert_eq!(added, &list(&["N"]));
            assert!(removed.is_empty());
        },
        _ => panic!("expected a change of variables"),
    }
    assert!(matches!(events[1], AbundantisEvent::CacheInvalidated { scope: None }));
    assert_eq!(instance.stats().cached_variables, 0);
    assert_eq!(*recorder.seen.lock().unwrap(), list(&["changed", "invalidated"]));
    instance.apply_rediscovery(&vec![memory_with("K", "new")], &Vec::new());
    assert_eq!(instance.get_in_context("K", &context).unwrap().unwrap().resolved_value, "new");
}

#[test]
fn events_without_invalidation_leave_the_cache() {
    let mut instance = instance_at("/w");
    let context = WorkspaceContext {
        workspace_root: "/w".to_string(),
        package_root: "/w".to_string(),
        package_name: None,
        env_files: Vec::new(),
    };
    assert!(instance.get_in_context("K", &context).unwrap().is_some());
    let cached = instance.stats().cached_variables;
    assert!(cached > 0);
    instance.receive_events(&vec![AbundantisEvent::SourceAdded { source_id: SourceId::new("x") }]);
    assert_eq!(instance.stats().cached_variables, cached);
    instance.receive_events(&Vec::new());
    assert_eq!(instance.stats().cached_variables, cached);
    instance.receive_events(&vec![
        AbundantisEvent::SourceRemoved { source_id: SourceId::new("x") },
        AbundantisEvent::CacheInvalidated { scope: None },
    ]);
    assert_eq!(instance.stats().cached_variables, 0);
    assert!(any_invalidation(&vec![AbundantisEvent::CacheInvalidated { scope: Some(context) }]));
    assert!(!any_invalidation(&Vec::new()));
}

#[test]
fn each_kind_of_change_tells_its_keys() {
    let id = SourceId::new("file:/w/.env");
    let before = SourceSnapshot::new(
        id.clone(),
        vec![ParsedVariable::simple("A", "1", VariableSource::Memory)],
        Some(1),
    );
    let after = SourceSnapshot::new(
        id.clone(),
        vec![ParsedVariable::simple("B", "2", VariableSource::Memory)],
        Some(2),
    );
    let told = |kind| match &WatchManager::events_for(kind, &id, &before, &after)[0] {
        AbundantisEvent::VariablesChanged { added, removed, .. } => (added.clone(), removed.clone()),
        _ => panic!("expected a change of variables"),
    };
    assert_eq!(told(ChangeKind::Modified), (list(&["B"]), list(&["A"])));
    assert_eq!(told(ChangeKind::Created), (list(&["B"]), Vec::new()));
    assert_eq!(told(ChangeKind::Deleted), (Vec::new(), list(&["B"])));
    assert!(WatchManager::needs_before(ChangeKind::Modified));
    assert!(!WatchManager::needs_before(ChangeKind::Created));
    assert!(!WatchManager::needs_before(ChangeKind::Deleted));
}

#[test]
fn the_memory_source_is_named_memory() {
    let mut memory = MemorySource::new();
    memory.set("K", "v");
    memory.remove("K");
    let snapshot = memory.load().unwrap();
    assert_eq!(snapshot.source_id.as_str(), "memory");
    assert!(snapshot.variables.is_empty());
    assert_eq!(snapshot.version, Some(2));
    assert_eq!(MemorySource::default().id().as_str(), "memory");
}

#[test]
fn without_sources_no_source_fails() {
    let registry: SourceRegistry<MemorySource> = SourceRegistry::new();
    let mut engine = ResolutionEngine::new(
        ResolutionConfig::default(),
        InterpolationConfig::default(),
        &CacheConfig::default(),
    );
    let context = WorkspaceContext {
        workspace_root: "/w".to_string(),
        package_root: "/w".to_string(),
        package_name: None,
        env_files: Vec::new(),
    };
    assert!(engine.resolve("K", &context, &registry).unwrap().is_none());
    assert!(engine.resolve_with_filter("K", &context, &registry, None).unwrap().is_none());
    assert!(engine.all_variables(&registry).unwrap().is_empty());
    assert!(engine.all_variables_with_filter(&registry, Some(&Vec::new())).unwrap().is_empty());
}

#[test]
fn places_may_stand_in_any_order_and_twice() {
    let snapshots = vec![
        snapshot_named("file:/w/.env.local"),
        snapshot_named("memory"),
        snapshot_named("file:/w/.env"),
        snapshot_named("remote:vault"),
    ];
    let precedence = vec![SourcePrecedence::File];
    assert_eq!(filter_by_source_type(&snapshots, &vec![3, 2, 2, 1, 0, 3], &precedence), vec![2, 2, 1, 0]);
    assert!(filter_by_source_type(&snapshots, &vec![0, 1, 2, 3], &Vec::new()).is_empty());
    assert!(filter_by_source_type(&snapshots, &Vec::new(), &precedence).is_empty());
    let resolution = ResolutionConfig {
        precedence,
        files: FileResolutionConfig { mode: FileMergeMode::Merge, order: list(&[".env", ".env.local"]) },
        type_check: true,
    };
    let mut engine =
        ResolutionEngine::new(resolution, InterpolationConfig::default(), &CacheConfig::default());
    assert_eq!(engine.sort_snapshot_refs_by_file_order(&snapshots, &vec![0, 2, 1, 2, 0]), vec![1, 2, 2, 0, 0]);
    let context = WorkspaceContext {
        workspace_root: "/w".to_string(),
        package_root: "/w".to_string(),
        package_name: None,
        env_files: Vec::new(),
    };
    let found = engine.resolve_among("K", &context, &snapshots, &vec![0, 2, 1], 0).unwrap().unwrap();
    assert_eq!(found.resolved_value, "file:/w/.env.local");
    let found = engine.resolve_among("K", &context, &snapshots, &vec![2, 1, 2], 1).unwrap().unwrap();
    assert_eq!(found.resolved_value, "file:/w/.env");
    assert!(engine.resolve_among("K", &context, &snapshots, &Vec::new(), 2).unwrap().is_none());
    let listed = engine.all_variables_inner(&snapshots, &vec![3, 0, 2, 0]).unwrap();
    assert_eq!(listed.len(), 1);
    assert_eq!(listed[0].resolved_value, "file:/w/.env");
}

#[test]
fn a_glob_matches_through_the_set_of_one() {
    let entries = vec![
        TreeEntry { path: "/w".to_string(), names: list(&["w"]), depth: 0, is_dir: true, content: None },
        TreeEntry { path: "/w/apps".to_string(), names: list(&["w", "apps"]), depth: 1, is_dir: true, content: None },
        TreeEntry { path: "/w/apps/x".to_string(), names: list(&["w", "apps", "x"]), depth: 2, is_dir: true, content: None },
        TreeEntry { path: "/w/libs".to_string(), names: list(&["w", "libs"]), depth: 1, is_dir: true, content: None },
    ];
    let mut workspace = AbundantisConfig::default().workspace;
    workspace.provider = Some(MonorepoProviderType::Custom);
    workspace.roots = list(&["apps/*", "[broken"]);
    let manager = WorkspaceManager::with_root("/w", workspace, &entries).unwrap();
    let roots: Vec<String> = manager.packages().iter().map(|p| p.root.clone()).collect();
    assert_eq!(roots, list(&["/w/apps/x"]));
}

struct Maker(u32);

impl abundantis::source::SourceFactory<MemorySource> for Maker {
    fn create(
        &self,
        _config: &abundantis::source::SourceConfig,
    ) -> Result<Arc<MemorySource>, abundantis::error::SourceError> {
        Ok(memory_with("MADE", &self.0.to_string()))
    }

    fn source_type(&self) -> &'static str {
        "memory"
    }
}

#[test]
fn factories_are_kept_under_their_names() {
    let mut factories: abundantis::source::SourceFactories<Maker> =
        abundantis::source::SourceFactories::new();
    assert_eq!(factories.len(), 0);
    assert!(factories.factory("memory").is_none());
    factories.register_factory("memory", Maker(1));
    factories.register_factory("file", Maker(2));
    factories.register_factory("memory", Maker(3));
    assert_eq!(factories.len(), 2);
    assert_eq!(factories.factory("memory").unwrap().0, 3);
    assert_eq!(factories.factory("file").unwrap().0, 2);
    assert!(factories.factory("shell").is_none());
    let config = abundantis::source::SourceConfig {
        source_type: "memory".to_string(),
        path: None,
        enabled: true,
    };
    use_factory(factories.factory("memory").unwrap(), &config);
}

fn use_factory(factory: &Maker, config: &abundantis::source::SourceConfig) {
    use_source(abundantis::source::SourceFactory::create(factory, config).unwrap());
    assert_eq!(abundantis::source::SourceFactory::source_type(factory), "memory");
}

fn use_source(source: Arc<MemorySource>) {
    assert_eq!(source.load().unwrap().variables[0].raw_value, "3");
}
