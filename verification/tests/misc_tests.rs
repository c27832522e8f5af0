use abundantis::builder::AbundantisBuilder;
use abundantis::config::{
    AbundantisConfig, CacheConfig, InterpolationConfig, MonorepoProviderType, ResolutionConfig,
    SourceDefaults, SourcePrecedence, WorkspaceConfig,
};
use abundantis::error::{AbundantisError, SourceError};
use abundantis::events::{AbundantisEvent, EventBus, EventSubscriber};
use abundantis::facade::{resolve_provider, Abundantis};
use abundantis::path_cache::PathCache;
use abundantis::resolution::{DependencyGraph, ResolutionEngine};
use abundantis::selection::{
    ActiveFileSelector, DirectoryScope, FileSelection, GlobMatch, SelectionFacts,
};
use abundantis::source::dotenv::{remove_from_text, set_in_text};
use abundantis::source::traits::SourceSnapshot;
use abundantis::source::{
    EnvSource, FileSource, MemorySource, ParsedVariable, ShellSource, SourceCapabilities, SourceId,
    SourceRegistry, SourceType, VariableSource,
};
use abundantis::text::{contains_within, decimal, ends_with, join, starts_with, strip_prefix};
use abundantis::watch::{ChangeKind, EventPath, FileWatcher, WatchEventKind};
use abundantis::watch_manager::{keys_missing_from, WatchManager};
use abundantis::workspace::{TreeEntry, WorkspaceContext, WorkspaceManager};
use abundantis::{RefreshOptions, VERSION};
use std::sync::Arc;
use std::time::Duration;

struct Silent;

impl EventSubscriber for Silent {
    fn on_event(&self, _event: &AbundantisEvent) {}
}

fn strings(items: &[&str]) -> Vec<String> {
    items.iter().map(|s| s.to_string()).collect()
}

#[test]
fn memory_set_then_remove_leaves_no_record() {
    let mut memory = MemorySource::new();
    memory.set("A", "1");
    memory.set("K", "v");
    memory.set("Z", "26");
    assert!(memory.remove("K").is_some());
    let snapshot = memory.load().unwrap();
    assert!(snapshot.variables.iter().all(|v| v.key != "K"));
    let keys: Vec<&str> = snapshot.variables.iter().map(|v| v.key.as_str()).collect();
    assert_eq!(keys, vec!["A", "Z"]);
    assert_eq!(snapshot.version, Some(4));
    assert!(memory.remove("K").is_none());
    assert_eq!(memory.load().unwrap().version, Some(4));
}

#[test]
fn memory_remove_moves_the_last_entry_into_the_gap() {
    let mut memory = MemorySource::new();
    for key in ["A", "B", "C", "D"] {
        memory.set(key, "x");
    }
    memory.remove("B");
    let keys: Vec<String> = memory.load().unwrap().variables.iter().map(|v| v.key.clone()).collect();
    assert_eq!(keys, strings(&["A", "D", "C"]));
    memory.set("A", "again");
    let snapshot = memory.load().unwrap();
    assert_eq!(snapshot.variables[0].raw_value, "again");
    assert_eq!(snapshot.variables.len(), 3);
    memory.clear();
    assert_eq!(memory.load().unwrap().version, Some(7));
    assert_eq!(memory.capabilities().bits(), 35);
}

#[test]
fn set_in_text_preserves_every_other_line() {
    let text = "# comment\nA=1\n\n  KEY  = old value\r\nKEY=second\nplain line\n";
    let edited = set_in_text(text, "KEY", "new").unwrap();
    assert_eq!(edited, "# comment\nA=1\n\n  KEY  =new\nKEY=second\nplain line");
    match set_in_text(text, "NOPE", "x") {
        Err(SourceError::UnsupportedOperation { operation, source_type, reason }) => {
            assert_eq!(operation, "set_variable");
            assert_eq!(source_type, "FileSource");
            assert_eq!(reason, "Key 'NOPE' not found in file");
        },
        _ => panic!("expected a refusal"),
    }
    assert_eq!(set_in_text("KEY=a=b", "KEY", "c").unwrap(), "KEY=c");
    assert_eq!(set_in_text("\u{a0}KEY\t=1", "KEY", "2").unwrap(), "\u{a0}KEY\t=2");
}

#[test]
fn remove_from_text_drops_every_line_of_the_key() {
    let text = "A=1\nKEY=x\nB=2\n KEY =y\n";
    assert_eq!(remove_from_text(text, "KEY"), "A=1\nB=2");
    assert_eq!(remove_from_text(text, "NOPE"), "A=1\nKEY=x\nB=2\n KEY =y");
    assert_eq!(remove_from_text("", "K"), "");
}

#[test]
fn file_source_serves_the_cache_until_the_file_changes() {
    let mut source = FileSource::new("/w/.env", true).unwrap();
    assert_eq!(source.id().as_str(), "file:/w/.env");
    assert_eq!(source.path(), "/w/.env");
    assert!(source.needs_read(Some(5)));
    let first = source.load(Some(5), Ok("K=1\n")).unwrap();
    assert_eq!(first.version, Some(1));
    assert!(!source.needs_read(Some(5)));
    let cached = source.load(Some(5), Ok("K=ignored\n")).unwrap();
    assert_eq!(cached.version, Some(1));
    assert_eq!(cached.variables[0].raw_value, "1");
    let changed = source.load(Some(6), Ok("K=2\n")).unwrap();
    assert_eq!(changed.version, Some(2));
    assert_eq!(changed.variables[0].raw_value, "2");
    assert!(matches!(changed.variables[0].source, VariableSource::File { ref path, offset: 0 } if path == "/w/.env"));
    assert_eq!(source.get_version(), Some(2));
    match source.load(None, Err("denied")) {
        Err(SourceError::SourceRead { source_name, reason }) => {
            assert_eq!(source_name, "/w/.env");
            assert_eq!(reason, "denied");
        },
        _ => panic!("expected a read failure"),
    }
    source.mark_written();
    assert!(source.needs_read(Some(6)));
    let after = source.load(Some(6), Ok("K=3\n")).unwrap();
    assert_eq!(after.version, Some(5));
    assert_eq!(source.increment_version(), 6);
    source.invalidate();
    assert!(source.has_changed(Some(6)));
    assert_eq!(source.reload(Some(7), Err("gone")), Err("gone".to_string()));
    assert_eq!(source.capabilities().bits(), 37);
    assert_eq!(FileSource::new("/nowhere", false).err().unwrap(), "File not found: /nowhere");
}

#[test]
fn file_source_set_variable_then_load_yields_the_new_value() {
    let mut source = FileSource::new("/w/.env", true).unwrap();
    source.load(Some(1), Ok("K=old\nOTHER=1\n")).unwrap();
    let written = source.set_variable("K", "fresh", "K=old\nOTHER=1\n").unwrap();
    source.mark_written();
    let snapshot = source.load(Some(2), Ok(&written)).unwrap();
    let k = snapshot.variables.iter().find(|v| v.key == "K").unwrap();
    assert_eq!(k.raw_value, "fresh");
    assert!(snapshot.variables.iter().any(|v| v.key == "OTHER" && v.raw_value == "1"));
    match source.remove_variable("NOPE", &written, Some(2)) {
        Err(SourceError::UnsupportedOperation { operation, .. }) => assert_eq!(operation, "remove_variable"),
        _ => panic!("expected a refusal"),
    }
}

#[test]
fn shell_source_serves_what_it_read_first() {
    let mut shell = ShellSource::new();
    assert_eq!(shell.id().as_str(), "shell:process");
    assert!(shell.needs_env());
    let first = shell.load(vec![("A".to_string(), "1".to_string())]).unwrap();
    assert_eq!(first.version, None);
    assert_eq!(first.variables.len(), 1);
    let second = shell.load(vec![("B".to_string(), "2".to_string())]).unwrap();
    assert_eq!(second.variables[0].key, "A");
    shell.invalidate();
    let third = shell.load(vec![("B".to_string(), "2".to_string())]).unwrap();
    assert_eq!(third.variables[0].key, "B");
    assert!(matches!(third.variables[0].source, VariableSource::Shell));
    assert!(!shell.has_changed());
    assert_eq!(shell.source_type(), SourceType::Shell);
    assert_eq!(shell.capabilities().bits(), 33);
}

#[test]
fn registry_replaces_sources_of_one_identity_and_indexes_files() {
    let mut registry: SourceRegistry<MemorySource> = SourceRegistry::new();
    let id = registry.register_sync(Arc::new(MemorySource::new()));
    assert_eq!(id.as_str(), "memory");
    registry.register_sync(Arc::new(MemorySource::new()));
    assert_eq!(registry.source_count(), 1);
    assert!(registry.is_registered(&SourceId::new("memory")));
    assert!(!registry.has_async_sources());
    assert_eq!(registry.sources_of_type(SourceType::Memory).len(), 1);
    assert_eq!(registry.sources_of_type(SourceType::File).len(), 0);
    assert_eq!(registry.sync_sources_by_priority().len(), 1);
    assert!(registry.registered_file_paths().is_empty());
    assert_eq!(registry.load_all().unwrap().len(), 1);
    registry.invalidate_file("/w/.env");
    registry.unregister_sync(&SourceId::new("memory"));
    assert_eq!(registry.source_count(), 0);
}

#[test]
fn graph_reports_the_path_to_a_circle() {
    let mut graph = DependencyGraph::new();
    graph.add_edge("A".to_string(), "B".to_string(), Some((0, 0)));
    graph.add_edge("B".to_string(), "C".to_string(), None);
    graph.add_edge("A".to_string(), "D".to_string(), None);
    assert!(graph.detect_cycle("A").is_empty());
    assert_eq!(graph.get_dependencies("A"), strings(&["B", "D"]));
    assert!(graph.get_dependencies("C").is_empty());
    graph.add_edge("C".to_string(), "B".to_string(), None);
    assert_eq!(graph.detect_cycle("A"), strings(&["A", "B", "C"]));
    assert_eq!(graph.detect_cycle("C"), strings(&["C", "B"]));
    assert!(graph.detect_cycle("D").is_empty());
    assert!(graph.detect_cycle("unknown").is_empty());
    graph.add_edge("D".to_string(), "D".to_string(), None);
    assert_eq!(graph.detect_cycle("D"), strings(&["D"]));
    let mut visited = vec![("stale".to_string(), true)];
    let mut path = strings(&["stale"]);
    assert_eq!(graph.detect_cycle_with_state("D", &mut visited, &mut path), strings(&["D"]));
    assert!(path.is_empty());
    graph.clear();
    assert!(graph.detect_cycle("A").is_empty());
}

#[test]
fn deeper_directory_scope_wins() {
    let selector = ActiveFileSelector::new("/w");
    let scopes = vec![
        DirectoryScope { directory: "/a".to_string(), patterns: strings(&[".env.a"]) },
        DirectoryScope { directory: "/a/b".to_string(), patterns: strings(&[".env.b"]) },
        DirectoryScope { directory: "/other".to_string(), patterns: strings(&[".env.o"]) },
    ];
    let canonical = strings(&["/a", "/a/b", "/other"]);
    let plan = selector.plan_active_files("/a/b/c", "/a/b/c", None, &scopes, &canonical);
    assert!(matches!(plan.general, FileSelection::AutoDiscover { ref for_path } if for_path == "/a/b/c"));
    match plan.scoped {
        Some(FileSelection::Patterns { base_dir, patterns }) => {
            assert_eq!(base_dir, "/a/b");
            assert_eq!(patterns, strings(&[".env.b"]));
        },
        _ => panic!("expected the patterns of the deeper scope"),
    }
    let plan = selector.plan_active_files("/a/x", "/a/x", Some(&strings(&["*.env"])), &scopes, &canonical);
    assert!(matches!(plan.general, FileSelection::Patterns { ref base_dir, .. } if base_dir == "/w"));
    assert!(matches!(plan.scoped, Some(FileSelection::Patterns { ref base_dir, .. }) if base_dir == "/a"));
    let plan = selector.plan_active_files("/z", "/z", Some(&Vec::new()), &scopes, &canonical);
    assert!(matches!(plan.general, FileSelection::AutoDiscover { .. }));
    assert!(plan.scoped.is_none());
    let empty = vec![DirectoryScope { directory: "/a".to_string(), patterns: Vec::new() }];
    let plan = selector.plan_active_files("/a/f", "/a/f", None, &empty, &strings(&["/a"]));
    assert!(matches!(plan.scoped, Some(FileSelection::AutoDiscover { ref for_path }) if for_path == "/a"));
}

#[test]
fn active_files_are_general_then_scoped() {
    let selector = ActiveFileSelector::new("/w");
    let scopes = vec![DirectoryScope { directory: "/w/pkg".to_string(), patterns: strings(&[".env.staging"]) }];
    let plan = selector.plan_active_files("/w/pkg/src/main", "/w/pkg/src/main", None, &scopes, &strings(&["/w/pkg"]));
    let general = SelectionFacts::Discovered {
        package_root: "/w/pkg".to_string(),
        packages: 2,
        existing: strings(&["/w/.env", "/w/pkg/.env.local", "/w/pkg/.env"]),
    };
    let scoped = SelectionFacts::Globbed {
        found: vec![Some(vec![
            GlobMatch { path: "/w/pkg/.env.staging".to_string(), is_file: true },
            GlobMatch { path: "/w/pkg/.env.staging.d".to_string(), is_file: false },
        ])],
    };
    assert_eq!(
        selector.compute_active_files(&plan, &general, &scoped),
        strings(&["/w/.env", "/w/pkg/.env.local", "/w/pkg/.env.staging"])
    );
    assert!(selector.select_files(&plan.general, &SelectionFacts::NoContext).is_empty());
    assert_eq!(ActiveFileSelector::glob_pattern("/w", "/abs/*.env"), "/abs/*.env");
    assert_eq!(ActiveFileSelector::glob_pattern("/w", "./rel.env"), "rel.env");
    assert_eq!(ActiveFileSelector::glob_pattern("/w", "sub/*.env"), "/w/sub/*.env");
    assert!(selector.resolve_patterns(&strings(&["["]), &vec![None]).is_empty());
}

#[test]
fn path_cache_answers_the_same_until_a_path_is_forgotten() {
    let mut cache = PathCache::new();
    assert_eq!(cache.canonicalize("a/../b", Some("/w/b")), "/w/b");
    assert_eq!(cache.canonicalize("a/../b", Some("/changed")), "/w/b");
    assert_eq!(cache.canonicalize("a/../b", None), "/w/b");
    assert_eq!(cache.canonicalize("gone", None), "gone");
    assert_eq!(cache.canonicalize("gone", Some("/w/gone")), "gone");
    assert_eq!(cache.len(), 2);
    let stats = cache.stats();
    assert_eq!((stats.hits, stats.misses, stats.errors), (3, 2, 1));
    cache.invalidate("gone");
    assert_eq!(cache.canonicalize("gone", Some("/w/gone")), "/w/gone");
    assert_eq!(cache.lookup("never"), None);
    assert_eq!(
        cache.canonicalize_many(&strings(&["x", "a/../b"]), &vec![Some("/x".to_string()), None]),
        strings(&["/x", "/w/b"])
    );
}

#[test]
fn watcher_reports_changes_of_watched_paths_only() {
    let mut watcher = FileWatcher::new();
    watcher.watch("/real/.env", "file:/w/.env");
    watcher.watch("/real/.env", "file:/w/.env");
    assert_eq!(watcher.paths(), strings(&["/real/.env"]));
    let paths = vec![
        EventPath { path: "/w/.env".to_string(), canonical: "/real/.env".to_string() },
        EventPath { path: "/w/other".to_string(), canonical: "/real/other".to_string() },
    ];
    let changes = watcher.changes(WatchEventKind::Modify, &paths);
    assert_eq!(changes.len(), 1);
    assert_eq!(changes[0].path, "/w/.env");
    assert_eq!(changes[0].kind, ChangeKind::Modified);
    assert_eq!(watcher.changes(WatchEventKind::Create, &paths)[0].kind, ChangeKind::Created);
    assert_eq!(watcher.changes(WatchEventKind::Remove, &paths)[0].kind, ChangeKind::Deleted);
    assert!(watcher.changes(WatchEventKind::Other, &paths).is_empty());
}

fn snapshot_of(keys: &[&str]) -> SourceSnapshot {
    SourceSnapshot::new(
        SourceId::new("file:/w/.env"),
        keys.iter().map(|k| ParsedVariable::simple(k, "v", VariableSource::Memory)).collect(),
        Some(1),
    )
}

#[test]
fn watch_manager_tells_which_keys_came_and_went() {
    let id = SourceId::new("file:/w/.env");
    let events = WatchManager::handle_file_change(&id, &snapshot_of(&["A", "B", "B"]), &snapshot_of(&["B", "C", "D", "C"]));
    assert_eq!(events.len(), 2);
    match &events[0] {
        AbundantisEvent::VariablesChanged { source_id, added, removed } => {
            assert_eq!(source_id.as_str(), "file:/w/.env");
            assert_eq!(added, &strings(&["C", "D"]));
            assert_eq!(removed, &strings(&["A"]));
        },
        _ => panic!("expected a change of variables"),
    }
    assert!(matches!(events[1], AbundantisEvent::CacheInvalidated { scope: None }));
    let mutation = WatchManager::handle_file_change(&id, &snapshot_of(&["K"]), &snapshot_of(&["K"]));
    assert!(matches!(&mutation[0], AbundantisEvent::VariablesChanged { added, removed, .. } if added.is_empty() && removed.is_empty()));
    let created = WatchManager::handle_file_create(&id, &snapshot_of(&["A", "B"]));
    assert!(matches!(&created[0], AbundantisEvent::VariablesChanged { added, removed, .. } if added == &strings(&["A", "B"]) && removed.is_empty()));
    let deleted = WatchManager::handle_file_delete(&id, &snapshot_of(&["A"]));
    assert!(matches!(&deleted[0], AbundantisEvent::VariablesChanged { added, removed, .. } if added.is_empty() && removed == &strings(&["A"])));
    assert_eq!(keys_missing_from(&strings(&["x", "y", "x"]), &strings(&["y"])), strings(&["x"]));
}

#[test]
fn error_messages() {
    assert_eq!(
        AbundantisError::MaxDepthExceeded { key: "A".to_string(), depth: 4 }.message(),
        "Max interpolation depth (4) exceeded for `A`"
    );
    assert_eq!(
        AbundantisError::MaxDepthExceeded { key: "A".to_string(), depth: 4294967295 }.message(),
        "Max interpolation depth (4294967295) exceeded for `A`"
    );
    assert_eq!(
        AbundantisError::WorkspaceNotFound { search_path: "/a \"b\"".to_string() }.message(),
        "Workspace root not found. Searched from: \"/a \\\"b\\\"\""
    );
    assert_eq!(
        AbundantisError::Source(SourceError::ParseError {
            path: "/.env".to_string(),
            line: 120,
            message: "bad".to_string(),
        })
        .message(),
        "Source error: Parse error in `\"/.env\"` at line 120: bad"
    );
    assert_eq!(
        AbundantisError::UnknownProvider { provider: "x".to_string() }.message(),
        "Unknown provider `x`. Valid options: turbo, nx, lerna, pnpm, npm, yarn, cargo, custom"
    );
    assert_eq!(
        AbundantisError::UndefinedVariable { key: "K".to_string() }.message(),
        "Undefined variable `K` referenced in interpolation"
    );
    assert_eq!(
        SourceError::UnsupportedOperation {
            operation: "op".to_string(),
            source_type: "T".to_string(),
            reason: "why".to_string(),
        }
        .message(),
        "Unsupported operation `op` for source: why"
    );
    assert_eq!(AbundantisError::from(SourceError::Timeout { source_name: "s".to_string() }).message(), "Source error: Timeout while loading source `s`");
    assert_eq!(decimal(0), "0");
    assert_eq!(decimal(907), "907");
}

#[test]
fn text_helpers() {
    assert!(starts_with("file:/a", "file:"));
    assert!(!starts_with("fil", "file:"));
    assert!(starts_with("é€x", "é€"));
    assert!(ends_with("/w/.env", ".env"));
    assert!(!ends_with("/w/.env.local", ".env"));
    assert_eq!(strip_prefix("file:/a", "file:"), Some("/a".to_string()));
    assert_eq!(strip_prefix("ééb", "é"), Some("éb".to_string()));
    assert_eq!(strip_prefix("/a", "file:"), None);
    assert_eq!(join(&strings(&["A", "B", "C"]), " -> "), "A -> B -> C");
    assert_eq!(join(&strings(&["A"]), " -> "), "A");
    assert_eq!(join(&Vec::new(), " -> "), "");
    assert!(contains_within("x[workspace]y", "[workspace]"));
    assert!(!contains_within("[workspac", "[workspace]"));
    assert!(contains_within("abc", ""));
}

#[test]
fn builder_collects_settings() {
    let builder: AbundantisBuilder<MemorySource, Silent> = AbundantisBuilder::new()
        .root("/w")
        .provider(MonorepoProviderType::Pnpm)
        .roots(strings(&["apps/*"]))
        .cascading(true)
        .env_files(strings(&[".env"]))
        .ignores(strings(&["**/dist/**"]))
        .precedence(vec![SourcePrecedence::File])
        .with_shell()
        .with_shell()
        .interpolation(false)
        .max_interpolation_depth(7)
        .cache_enabled(false)
        .cache_size(5)
        .cache_ttl(Duration::from_secs(9))
        .source_defaults(SourceDefaults { shell: false, file: true, remote: true })
        .with_source(Arc::new(MemorySource::new()))
        .subscribe(Arc::new(Silent))
        .event_buffer_size(16)
        .active_files(&strings(&[".env.a"]))
        .active_files_for_directory("/w/x", &strings(&[".env.x"]))
        .active_files_for_directory("/w/x", &strings(&[".env.y"]));
    assert_eq!(builder.root, Some("/w".to_string()));
    assert_eq!(builder.config.workspace.provider, Some(MonorepoProviderType::Pnpm));
    assert_eq!(builder.config.workspace.roots, strings(&["apps/*"]));
    assert!(builder.config.workspace.cascading);
    assert_eq!(builder.config.resolution.precedence, vec![SourcePrecedence::Shell, SourcePrecedence::File]);
    assert!(!builder.config.interpolation.enabled);
    assert_eq!(builder.config.interpolation.max_depth, 7);
    assert!(!builder.config.cache.enabled);
    assert_eq!(builder.config.cache.hot_cache_size, 5);
    assert_eq!(builder.config.cache.ttl, Duration::from_secs(9));
    assert!(builder.config.sources.defaults.remote);
    assert_eq!(builder.custom_sources.len(), 1);
    assert_eq!(builder.subscribers.len(), 1);
    assert_eq!(builder.event_buffer_size, Some(16));
    assert_eq!(builder.active_files, Some(strings(&[".env.a"])));
    assert_eq!(builder.active_files_for_directory.len(), 1);
    assert_eq!(builder.active_files_for_directory[0].patterns, strings(&[".env.y"]));
    assert_eq!(
        ResolutionConfig::precedence_from_defaults(&builder.config.sources.defaults),
        vec![SourcePrecedence::File, SourcePrecedence::Remote]
    );
}

fn instance() -> Abundantis<MemorySource, Silent> {
    let config = AbundantisConfig::default();
    let workspace_config = resolve_provider(config.workspace.clone(), None);
    let entries = vec![TreeEntry {
        path: "/w".to_string(),
        names: strings(&["w"]),
        depth: 0,
        is_dir: true,
        content: None,
    }];
    let workspace = WorkspaceManager::with_root("/w", workspace_config, &entries).unwrap();
    let mut registry = SourceRegistry::new();
    let mut memory = MemorySource::new();
    memory.set("K", "v");
    registry.register_sync(Arc::new(memory));
    let engine = ResolutionEngine::new(
        ResolutionConfig::default(),
        InterpolationConfig::default(),
        &CacheConfig::default(),
    );
    Abundantis::assemble(config, registry, engine, workspace, EventBus::new(16), "/w", None, Vec::new())
}

#[test]
fn provider_falls_back_to_custom_with_the_root_as_package() {
    let resolved = resolve_provider(WorkspaceConfig::default(), None);
    assert_eq!(resolved.provider, Some(MonorepoProviderType::Custom));
    assert_eq!(resolved.roots, strings(&["."]));
    let detected = resolve_provider(WorkspaceConfig::default(), Some(MonorepoProviderType::Nx));
    assert_eq!(detected.provider, Some(MonorepoProviderType::Nx));
    assert!(detected.roots.is_empty());
    let configured = resolve_provider(
        WorkspaceConfig { provider: Some(MonorepoProviderType::Cargo), ..Default::default() },
        Some(MonorepoProviderType::Nx),
    );
    assert_eq!(configured.provider, Some(MonorepoProviderType::Cargo));
}

#[test]
fn instance_resolves_and_forgets() {
    let mut instance = instance();
    let context = WorkspaceContext {
        workspace_root: "/w".to_string(),
        package_root: "/w".to_string(),
        package_name: None,
        env_files: Vec::new(),
    };
    assert_eq!(instance.stats().source_count, 1);
    let found = instance.get_in_context("K", &context).unwrap().unwrap();
    assert_eq!(found.resolved_value, "v");
    assert_eq!(instance.stats().cached_variables, 2);
    instance.set_active_files(&strings(&[".env.x"]));
    assert_eq!(instance.stats().cached_variables, 0);
    assert_eq!(instance.global_active_files, Some(strings(&[".env.x"])));
    let for_file = instance.get_for_file("K", "/w/f", Some(&context), &strings(&["/w/.env"])).unwrap().unwrap();
    assert_eq!(for_file.resolved_value, "v");
    assert_eq!(instance.all_for_file("/w/f", Some(&context), &Vec::new()).unwrap().len(), 1);
    assert_eq!(instance.all_in_context(&context).unwrap().len(), 1);
    match instance.get_for_file("K", "/w/f", None, &Vec::new()) {
        Err(AbundantisError::Config { message, path }) => {
            assert_eq!(message, "No workspace context found for file: /w/f");
            assert_eq!(path, Some("/w/f".to_string()));
        },
        _ => panic!("expected a refusal"),
    }
    instance.set_active_files_for_directory("/w/a", &strings(&["*.env"]));
    instance.clear_active_files_for_directory("/w/a");
    assert!(instance.directory_active_files.is_empty());
    instance.clear_all_active_files();
    assert_eq!(instance.global_active_files, None);
    assert_eq!(VERSION, "0.1.0");
}

#[test]
fn instance_makes_identities_and_plans_rediscovery() {
    let mut instance = instance();
    let ids = instance.get_source_ids_for_paths(&strings(&["/w/.env", "/w/.env.local", "/w/.env"]));
    let texts: Vec<&str> = ids.iter().map(|id| id.as_str()).collect();
    assert_eq!(texts, vec!["file:/w/.env", "file:/w/.env.local"]);
    let plan = instance.rediscover_file_sources(&strings(&["/w/.env", "/w/.env"]), &Vec::new());
    assert_eq!(plan.register, strings(&["/w/.env"]));
    assert!(plan.unregister.is_empty());
    let backup = instance.file_config_backup(&RefreshOptions::preserve_all(), &strings(&["/w/.env"])).unwrap();
    assert_eq!(backup.global, Some(strings(&["/w/.env"])));
    assert!(instance.file_config_backup(&RefreshOptions::reset_all(), &Vec::new()).is_none());
    instance.refresh_sources(&RefreshOptions::preserve_all());
    instance.finish_refresh(Some(backup));
    assert_eq!(instance.global_active_files, Some(strings(&["/w/.env"])));
    assert!(instance.path_to_source_id.is_empty());
    assert!(SourceCapabilities::all().contains(SourceCapabilities::SECRETS() | SourceCapabilities::VERSIONED()));
    assert!(!SourceCapabilities::empty().contains(SourceCapabilities::READ()));
}
