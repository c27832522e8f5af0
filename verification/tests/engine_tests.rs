use abundantis::config::{
    CacheConfig, FileMergeMode, FileResolutionConfig, InterpolationConfig, InterpolationFeatures,
    ResolutionConfig, SourcePrecedence,
};
use abundantis::error::{AbundantisError, SourceError};
use abundantis::resolution::engine::{hash_context, snapshots_version};
use abundantis::resolution::order::{class_of, get_file_order_index, passes, takes_part};
use abundantis::resolution::{CacheKey, ResolutionCache, ResolutionEngine, ResolvedVariable};
use abundantis::source::config::SourceRefreshOptions;
use abundantis::source::traits::{SourceMetadata, SourceSnapshot};
use abundantis::source::{
    EnvSource, ParsedVariable, Priority, SourceCapabilities, SourceId, SourceRegistry, SourceType,
    VariableSource,
};
use abundantis::workspace::WorkspaceContext;
use std::sync::Arc;
use std::time::Duration;

struct FixedSource {
    id: SourceId,
    kind: SourceType,
    rank: Priority,
    variables: Vec<(String, String)>,
    version: Option<u64>,
    fails: bool,
}

impl FixedSource {
    fn new(id: &str, kind: SourceType, rank: u32, variables: &[(&str, &str)], version: Option<u64>) -> Arc<Self> {
        Arc::new(FixedSource {
            id: SourceId::new(id),
            kind,
            rank: Priority(rank),
            variables: variables.iter().map(|(k, v)| (k.to_string(), v.to_string())).collect(),
            version,
            fails: false,
        })
    }

    fn failing(id: &str) -> Arc<Self> {
        Arc::new(FixedSource {
            id: SourceId::new(id),
            kind: SourceType::Remote,
            rank: Priority(75),
            variables: Vec::new(),
            version: None,
            fails: true,
        })
    }
}

impl EnvSource for FixedSource {
    fn id(&self) -> &SourceId {
        &self.id
    }

    fn source_type(&self) -> SourceType {
        self.kind
    }

    fn priority(&self) -> Priority {
        self.rank
    }

    fn capabilities(&self) -> SourceCapabilities {
        SourceCapabilities::READ()
    }

    fn load(&self) -> Result<SourceSnapshot, SourceError> {
        if self.fails {
            return Err(SourceError::Timeout { source_name: self.id.as_str().to_string() });
        }
        let variables = self
            .variables
            .iter()
            .map(|(k, v)| ParsedVariable::simple(k, v, VariableSource::Memory))
            .collect();
        Ok(SourceSnapshot::new(self.id.clone(), variables, self.version))
    }

    fn has_changed(&self) -> bool {
        false
    }

    fn invalidate(&self) {}

    fn metadata(&self) -> SourceMetadata {
        SourceMetadata::default()
    }

    fn refresh(&self, _options: &SourceRefreshOptions) {}
}

fn context(root: &str) -> WorkspaceContext {
    WorkspaceContext {
        workspace_root: root.to_string(),
        package_root: root.to_string(),
        package_name: None,
        env_files: vec![format!("{}/.env", root)],
    }
}

fn engine_with(
    precedence: Vec<SourcePrecedence>,
    order: &[&str],
    type_check: bool,
    max_depth: u32,
    interpolate: bool,
) -> ResolutionEngine {
    let resolution = ResolutionConfig {
        precedence,
        files: FileResolutionConfig {
            mode: FileMergeMode::Merge,
            order: order.iter().map(|s| s.to_string()).collect(),
        },
        type_check,
    };
    let interpolation = InterpolationConfig {
        enabled: interpolate,
        max_depth,
        features: InterpolationFeatures::default(),
    };
    ResolutionEngine::new(resolution, interpolation, &CacheConfig::default())
}

fn registry_of(sources: Vec<Arc<FixedSource>>) -> SourceRegistry<FixedSource> {
    let mut registry = SourceRegistry::new();
    for source in sources {
        registry.register_sync(source);
    }
    registry
}

fn resolved(key: &str, value: &str) -> Arc<ResolvedVariable> {
    Arc::new(ResolvedVariable {
        key: key.to_string(),
        raw_value: value.to_string(),
        resolved_value: value.to_string(),
        source: VariableSource::Memory,
        description: None,
        has_warnings: false,
        interpolation_depth: 0,
    })
}

#[test]
fn scenario_basic_precedence_file_wins_over_shell() {
    let registry = registry_of(vec![
        FixedSource::new("shell:process", SourceType::Shell, 100, &[("FOO", "shell")], None),
        FixedSource::new("file:/w/.env", SourceType::File, 50, &[("FOO", "file")], Some(1)),
    ]);
    let mut engine =
        engine_with(vec![SourcePrecedence::Shell, SourcePrecedence::File], &[".env"], true, 64, true);
    let found = engine.resolve("FOO", &context("/w"), &registry).unwrap().unwrap();
    assert_eq!(found.resolved_value, "file");
    assert_eq!(found.key, "FOO");
}

#[test]
fn scenario_file_wins_wherever_it_is_registered() {
    let registry = registry_of(vec![
        FixedSource::new("file:/w/.env", SourceType::File, 50, &[("FOO", "file")], Some(1)),
        FixedSource::new("shell:process", SourceType::Shell, 100, &[("FOO", "shell")], None),
    ]);
    let mut engine =
        engine_with(vec![SourcePrecedence::Shell, SourcePrecedence::File], &[".env"], true, 64, true);
    let found = engine.resolve("FOO", &context("/w"), &registry).unwrap().unwrap();
    assert_eq!(found.resolved_value, "file");
}

#[test]
fn scenario_interpolation_expands_references() {
    let registry = registry_of(vec![FixedSource::new(
        "file:/w/.env",
        SourceType::File,
        50,
        &[("BASE", "hello"), ("GREETING", "${BASE} world")],
        Some(1),
    )]);
    let mut engine =
        engine_with(vec![SourcePrecedence::Shell, SourcePrecedence::File], &[".env"], true, 64, true);
    let found = engine.resolve("GREETING", &context("/w"), &registry).unwrap().unwrap();
    assert_eq!(found.resolved_value, "hello world");
    assert_eq!(found.raw_value, "${BASE} world");
    assert_eq!(found.interpolation_depth, 0);
    assert!(!found.has_warnings);
}

#[test]
fn scenario_nested_references_are_followed() {
    let registry = registry_of(vec![FixedSource::new(
        "memory",
        SourceType::Memory,
        30,
        &[("A", "${B}-a"), ("B", "${C}-b"), ("C", "c")],
        Some(3),
    )]);
    let mut engine = engine_with(vec![SourcePrecedence::File], &[], true, 64, true);
    let found = engine.resolve("A", &context("/w"), &registry).unwrap().unwrap();
    assert_eq!(found.resolved_value, "c-b-a");
}

#[test]
fn scenario_cycle_is_reported_with_type_check() {
    let registry = registry_of(vec![FixedSource::new(
        "file:/w/.env",
        SourceType::File,
        50,
        &[("A", "${B}"), ("B", "${A}")],
        Some(1),
    )]);
    let mut engine =
        engine_with(vec![SourcePrecedence::Shell, SourcePrecedence::File], &[".env"], true, 64, true);
    match engine.resolve("A", &context("/w"), &registry) {
        Err(AbundantisError::CircularDependency { chain }) => assert_eq!(chain, "A -> B -> A"),
        other => panic!("expected a circular dependency, got {:?}", other.map(|v| v.map(|x| x.key.clone()))),
    }
    match engine.resolve("B", &context("/w"), &registry) {
        Err(AbundantisError::CircularDependency { chain }) => assert_eq!(chain, "A -> B -> A"),
        other => panic!("expected a circular dependency, got {:?}", other.map(|v| v.map(|x| x.key.clone()))),
    }
}

#[test]
fn cycle_without_type_check_leaves_the_value_as_it_is() {
    let registry = registry_of(vec![FixedSource::new(
        "file:/w/.env",
        SourceType::File,
        50,
        &[("A", "${A}")],
        Some(1),
    )]);
    let mut engine =
        engine_with(vec![SourcePrecedence::Shell, SourcePrecedence::File], &[".env"], false, 4, true);
    let found = engine.resolve("A", &context("/w"), &registry).unwrap().unwrap();
    assert_eq!(found.raw_value, "${A}");
    assert_eq!(found.resolved_value, "${A}");
}

#[test]
fn depth_bound_of_zero_fails_every_resolution() {
    let registry = registry_of(vec![FixedSource::new(
        "file:/w/.env",
        SourceType::File,
        50,
        &[("A", "plain")],
        Some(1),
    )]);
    let mut engine =
        engine_with(vec![SourcePrecedence::Shell, SourcePrecedence::File], &[".env"], false, 0, true);
    match engine.resolve("A", &context("/w"), &registry) {
        Err(AbundantisError::MaxDepthExceeded { key, depth }) => {
            assert_eq!(key, "A");
            assert_eq!(depth, 0);
        },
        other => panic!("expected the depth bound, got {:?}", other.map(|v| v.map(|x| x.key.clone()))),
    }
}

#[test]
fn interpolation_switched_off_returns_the_raw_value() {
    let registry = registry_of(vec![FixedSource::new(
        "memory",
        SourceType::Memory,
        30,
        &[("BASE", "hello"), ("GREETING", "${BASE} world")],
        Some(2),
    )]);
    let mut engine = engine_with(vec![SourcePrecedence::File], &[], true, 0, false);
    let found = engine.resolve("GREETING", &context("/w"), &registry).unwrap().unwrap();
    assert_eq!(found.resolved_value, "${BASE} world");
}

#[test]
fn file_order_later_name_wins() {
    let registry = registry_of(vec![
        FixedSource::new("file:/w/.env.local", SourceType::File, 50, &[("K", "local")], Some(1)),
        FixedSource::new("file:/w/.env", SourceType::File, 50, &[("K", "plain")], Some(1)),
    ]);
    let mut engine = engine_with(
        vec![SourcePrecedence::Shell, SourcePrecedence::File],
        &[".env", ".env.local"],
        true,
        64,
        true,
    );
    let found = engine.resolve("K", &context("/w"), &registry).unwrap().unwrap();
    assert_eq!(found.resolved_value, "local");
}

#[test]
fn file_order_index_values() {
    let order = vec![".env".to_string(), ".env.local".to_string()];
    assert_eq!(get_file_order_index(&SourceId::new("shell:process"), &order), 0);
    assert_eq!(get_file_order_index(&SourceId::new("memory"), &order), 0);
    assert_eq!(get_file_order_index(&SourceId::new("file:/w/.env"), &order), 1);
    assert_eq!(get_file_order_index(&SourceId::new("file:/w/.env.local"), &order), 2);
    assert_eq!(get_file_order_index(&SourceId::new("file:/w/.env.test"), &order), 3);
    assert_eq!(get_file_order_index(&SourceId::new("file:/w/config/app.env"), &order), 1);
}

#[test]
fn classification_by_identity() {
    assert_eq!(class_of("file:/w/.env"), Some(SourcePrecedence::File));
    assert_eq!(class_of("shell"), Some(SourcePrecedence::Shell));
    assert_eq!(class_of("shell:process"), Some(SourcePrecedence::Shell));
    assert_eq!(class_of("remote:vault:x"), Some(SourcePrecedence::Remote));
    assert_eq!(class_of("memory"), None);
    assert_eq!(class_of("shellfish"), None);
    assert!(takes_part("memory", &vec![SourcePrecedence::File]));
    assert!(!takes_part("memory", &vec![]));
    assert!(!takes_part("shell:process", &vec![SourcePrecedence::File]));
    assert!(takes_part("file:/a", &vec![SourcePrecedence::File]));
}

#[test]
fn filter_of_active_files() {
    let active = vec![SourceId::new("file:/w/.env")];
    assert!(passes("file:/w/.env", Some(&active)));
    assert!(!passes("file:/w/.env.local", Some(&active)));
    assert!(passes("shell:process", Some(&active)));
    assert!(passes("file:", Some(&active)));
    let none: Vec<SourceId> = Vec::new();
    assert!(!passes("file:/w/.env", Some(&none)));
    assert!(passes("memory", Some(&none)));
    assert!(passes("file:/w/.env", None));
}

#[test]
fn resolve_with_filter_keeps_only_active_files() {
    let registry = registry_of(vec![
        FixedSource::new("file:/w/.env", SourceType::File, 50, &[("K", "plain")], Some(1)),
        FixedSource::new("file:/w/.env.local", SourceType::File, 50, &[("K", "local")], Some(1)),
    ]);
    let mut engine = engine_with(
        vec![SourcePrecedence::Shell, SourcePrecedence::File],
        &[".env", ".env.local"],
        true,
        64,
        true,
    );
    let active = vec![SourceId::new("file:/w/.env")];
    let found =
        engine.resolve_with_filter("K", &context("/w"), &registry, Some(&active)).unwrap().unwrap();
    assert_eq!(found.resolved_value, "plain");
}

#[test]
fn empty_precedence_lists_nothing() {
    let registry = registry_of(vec![
        FixedSource::new("file:/w/.env", SourceType::File, 50, &[("K", "plain")], Some(1)),
        FixedSource::new("memory", SourceType::Memory, 30, &[("M", "m")], Some(1)),
    ]);
    let mut engine = engine_with(vec![], &[".env"], true, 64, true);
    let all = engine.all_variables(&registry).unwrap();
    assert!(all.is_empty());
}

#[test]
fn all_variables_lists_the_first_of_each_key_in_file_order() {
    let registry = registry_of(vec![
        FixedSource::new("file:/w/.env.local", SourceType::File, 50, &[("K", "local"), ("L", "l")], Some(1)),
        FixedSource::new("file:/w/.env", SourceType::File, 50, &[("K", "plain"), ("P", "p")], Some(1)),
        FixedSource::new("memory", SourceType::Memory, 30, &[("M", "m")], Some(1)),
    ]);
    let mut engine = engine_with(
        vec![SourcePrecedence::Shell, SourcePrecedence::File],
        &[".env", ".env.local"],
        true,
        64,
        true,
    );
    let all = engine.all_variables(&registry).unwrap();
    let listed: Vec<(String, String)> =
        all.iter().map(|v| (v.key.clone(), v.resolved_value.clone())).collect();
    assert_eq!(
        listed,
        vec![
            ("M".to_string(), "m".to_string()),
            ("K".to_string(), "plain".to_string()),
            ("P".to_string(), "p".to_string()),
            ("L".to_string(), "l".to_string()),
        ]
    );
}

#[test]
fn a_source_that_fails_fails_the_resolution() {
    let registry = registry_of(vec![
        FixedSource::new("memory", SourceType::Memory, 30, &[("M", "m")], Some(1)),
        FixedSource::failing("remote:slow"),
    ]);
    let mut engine = engine_with(vec![SourcePrecedence::File], &[], true, 64, true);
    match engine.resolve("M", &context("/w"), &registry) {
        Err(AbundantisError::Source(SourceError::Timeout { source_name })) => {
            assert_eq!(source_name, "remote:slow")
        },
        other => panic!("expected a source error, got {:?}", other.map(|v| v.map(|x| x.key.clone()))),
    }
}

#[test]
fn a_key_that_nobody_defines_has_no_value() {
    let registry =
        registry_of(vec![FixedSource::new("memory", SourceType::Memory, 30, &[("M", "m")], Some(1))]);
    let mut engine = engine_with(vec![SourcePrecedence::File], &[], true, 64, true);
    assert!(engine.resolve("OTHER", &context("/w"), &registry).unwrap().is_none());
}

#[test]
fn a_cached_resolution_is_returned_again() {
    let registry =
        registry_of(vec![FixedSource::new("memory", SourceType::Memory, 30, &[("M", "m")], Some(1))]);
    let mut engine = engine_with(vec![SourcePrecedence::File], &[], true, 64, true);
    let first = engine.resolve_at("M", &context("/w"), &registry, 10).unwrap().unwrap();
    let failing = registry_of(vec![FixedSource::failing("remote:slow")]);
    let second = engine.resolve_at("M", &context("/w"), &failing, 20).unwrap().unwrap();
    assert!(Arc::ptr_eq(&first, &second));
    assert_eq!(engine.cache().len(), 2);
}

#[test]
fn version_sum_of_snapshots() {
    let a = SourceSnapshot::new(SourceId::new("a"), Vec::new(), Some(3));
    let b = SourceSnapshot::new(SourceId::new("b"), Vec::new(), None);
    let c = SourceSnapshot::new(SourceId::new("c"), Vec::new(), Some(4));
    assert_eq!(snapshots_version(&vec![a, b, c]), 7);
    assert_eq!(snapshots_version(&Vec::new()), 0);
    let top = SourceSnapshot::new(SourceId::new("t"), Vec::new(), Some(u64::MAX));
    let one = SourceSnapshot::new(SourceId::new("o"), Vec::new(), Some(2));
    assert_eq!(snapshots_version(&vec![top, one]), 1);
}

#[test]
fn equal_contexts_hash_equally() {
    let a = context("/w");
    let b = context("/w");
    assert_eq!(hash_context(&a), hash_context(&b));
    let mut named = context("/w");
    named.package_name = Some("pkg".to_string());
    assert_ne!(hash_context(&a), hash_context(&named));
    assert_ne!(hash_context(&a), hash_context(&context("/x")));
}

#[test]
fn hot_cache_size_zero_is_treated_as_one() {
    let config = CacheConfig { enabled: true, hot_cache_size: 0, ttl: Duration::from_secs(60) };
    let mut cache = ResolutionCache::new(&config);
    cache.insert_at(CacheKey::new("A", 1), resolved("A", "a"), 0);
    assert_eq!(cache.len(), 2);
    cache.insert_at(CacheKey::new("B", 1), resolved("B", "b"), 0);
    assert_eq!(cache.len(), 3);
}

#[test]
fn bounded_tier_forgets_what_was_used_longest_ago() {
    let config = CacheConfig { enabled: true, hot_cache_size: 2, ttl: Duration::from_secs(60) };
    let mut cache = ResolutionCache::new(&config);
    cache.insert_at(CacheKey::new("A", 1), resolved("A", "a"), 0);
    cache.insert_at(CacheKey::new("B", 1), resolved("B", "b"), 0);
    cache.insert_at(CacheKey::new("C", 1), resolved("C", "c"), 0);
    assert_eq!(cache.len(), 5);
    cache.insert_at(CacheKey::new("C", 1), resolved("C", "c2"), 0);
    assert_eq!(cache.len(), 5);
    assert_eq!(cache.get_at(&CacheKey::new("C", 1), 1).unwrap().resolved_value, "c2");
    cache.invalidate(&CacheKey::new("C", 1));
    assert_eq!(cache.len(), 3);
    cache.clear();
    assert_eq!(cache.len(), 0);
}

#[test]
fn ttl_zero_misses_every_get() {
    let config = CacheConfig { enabled: true, hot_cache_size: 10, ttl: Duration::from_secs(0) };
    let mut cache = ResolutionCache::new(&config);
    cache.insert_at(CacheKey::new("A", 1), resolved("A", "a"), 5);
    assert!(cache.get_at(&CacheKey::new("A", 1), 5).is_none());
    cache.insert(CacheKey::new("B", 1), resolved("B", "b"));
    assert!(cache.get(&CacheKey::new("B", 1)).is_none());
}

#[test]
fn entries_expire_after_the_ttl() {
    let config = CacheConfig { enabled: true, hot_cache_size: 10, ttl: Duration::from_nanos(100) };
    let mut cache = ResolutionCache::new(&config);
    cache.insert_at(CacheKey::new("A", 1), resolved("A", "a"), 1000);
    assert!(cache.get_at(&CacheKey::new("A", 1), 1099).is_some());
    assert!(cache.get_at(&CacheKey::new("A", 1), 900).is_some());
    assert!(cache.get_at(&CacheKey::new("A", 1), 1100).is_none());
    assert_eq!(cache.len(), 1);
    cache.insert_at(CacheKey::new("B", 1), resolved("B", "b"), 2000);
    cache.cleanup_expired_at(2050);
    assert_eq!(cache.len(), 2);
    cache.cleanup_expired_at(2100);
    assert_eq!(cache.len(), 0);
}

#[test]
fn a_disabled_cache_holds_nothing() {
    let config = CacheConfig { enabled: false, hot_cache_size: 10, ttl: Duration::from_secs(60) };
    let mut cache = ResolutionCache::new(&config);
    cache.insert(CacheKey::new("A", 1), resolved("A", "a"));
    assert!(cache.get(&CacheKey::new("A", 1)).is_none());
    assert_eq!(cache.len(), 0);
    assert!(cache.is_empty());
}

#[test]
fn updating_the_configuration_empties_the_cache() {
    let registry =
        registry_of(vec![FixedSource::new("memory", SourceType::Memory, 30, &[("M", "m")], Some(1))]);
    let mut engine = engine_with(vec![SourcePrecedence::File], &[], true, 64, true);
    engine.resolve("M", &context("/w"), &registry).unwrap().unwrap();
    assert_eq!(engine.cache().len(), 2);
    engine.update_interpolation_config(InterpolationConfig {
        enabled: false,
        max_depth: 1,
        features: InterpolationFeatures::default(),
    });
    assert_eq!(engine.cache().len(), 0);
    assert!(!engine.interpolation_enabled());
    engine.resolve("M", &context("/w"), &registry).unwrap().unwrap();
    engine.update_resolution_config(ResolutionConfig::default());
    assert_eq!(engine.cache().len(), 0);
    assert_eq!(engine.precedence(), vec![SourcePrecedence::Shell, SourcePrecedence::File]);
}

#[test]
fn registry_files_sources_under_their_paths() {
    let env = FixedSource::new("file:/w/.env", SourceType::File, 50, &[("K", "1")], Some(1));
    let local = FixedSource::new("file:/w/.env.local", SourceType::File, 50, &[("K", "2")], Some(1));
    let shell = FixedSource::new("shell:process", SourceType::Shell, 100, &[], None);
    let odd = FixedSource::new("file:/w/odd", SourceType::Memory, 30, &[], None);
    let mut registry = registry_of(vec![env.clone(), shell, local, odd]);
    let mut paths = registry.registered_file_paths();
    paths.sort();
    assert_eq!(paths, vec!["/w/.env".to_string(), "/w/.env.local".to_string()]);
    let found = registry.sources_for_paths(&vec![
        "/w/.env.local".to_string(),
        "/w/none".to_string(),
        "/w/.env".to_string(),
        "/w/.env.local".to_string(),
    ]);
    let ids: Vec<&str> = found.iter().map(|s| s.id().as_str()).collect();
    assert_eq!(ids, vec!["file:/w/.env.local", "file:/w/.env"]);
    let by_priority = registry.sync_sources_by_priority();
    let ranked: Vec<&str> = by_priority.iter().map(|s| s.id.as_str()).collect();
    assert_eq!(ranked, vec!["shell:process", "file:/w/.env", "file:/w/.env.local", "file:/w/odd"]);
    assert_eq!(registry.sources_of_type(SourceType::File).len(), 2);
    registry.unregister_sync(&SourceId::new("file:/w/.env"));
    assert_eq!(registry.registered_file_paths(), vec!["/w/.env.local".to_string()]);
    assert!(!registry.is_registered(&SourceId::new("file:/w/.env")));
    assert_eq!(registry.source_count(), 3);
    registry.register_sync(env);
    assert_eq!(registry.source_count(), 4);
}

#[test]
fn scenario_a_package_inherits_the_files_of_the_root() {
    let registry = registry_of(vec![
        FixedSource::new("file:/w/.env", SourceType::File, 50, &[("COMMON", "1")], Some(1)),
        FixedSource::new("file:/w/apps/x/.env", SourceType::File, 50, &[("APP", "2")], Some(1)),
        FixedSource::new("file:/w/apps/y/.env", SourceType::File, 50, &[("OTHER", "3")], Some(1)),
    ]);
    let mut engine = engine_with(
        vec![SourcePrecedence::Shell, SourcePrecedence::File],
        &[".env", ".env.local"],
        true,
        64,
        true,
    );
    let active = vec![SourceId::new("file:/w/.env"), SourceId::new("file:/w/apps/x/.env")];
    let listed = engine.all_variables_with_filter(&registry, Some(&active)).unwrap();
    let seen: Vec<(&str, &str)> =
        listed.iter().map(|v| (v.key.as_str(), v.resolved_value.as_str())).collect();
    assert_eq!(seen, vec![("COMMON", "1"), ("APP", "2")]);
}

#[test]
fn scenario_an_edited_file_is_served_anew() {
    let mut file = abundantis::source::FileSource::new("/w/.env", true).unwrap();
    let before = file.load(Some(10), Ok("K=1\n")).unwrap();
    assert_eq!(before.variables[0].raw_value, "1");
    assert_eq!(before.version, Some(1));
    let unchanged = file.load(Some(10), Err("not read")).unwrap();
    assert_eq!(unchanged.variables[0].raw_value, "1");
    assert_eq!(unchanged.version, Some(1));
    assert!(file.needs_read(Some(20)));
    let after = file.load(Some(20), Ok("K=2\n")).unwrap();
    assert_eq!(after.variables[0].raw_value, "2");
    assert!(after.version > before.version);
    let events = abundantis::watch_manager::WatchManager::handle_file_change(
        &SourceId::new("file:/w/.env"),
        &before,
        &after,
    );
    assert_eq!(events.len(), 2);
    match &events[0] {
        abundantis::events::AbundantisEvent::VariablesChanged { added, removed, .. } => {
            assert!(added.is_empty());
            assert!(removed.is_empty());
        },
        _ => panic!("expected a change of variables"),
    }
    assert!(matches!(
        events[1],
        abundantis::events::AbundantisEvent::CacheInvalidated { scope: None }
    ));

    let mut engine = engine_with(vec![SourcePrecedence::File], &[".env"], true, 64, true);
    let old = engine.resolve_snapshots("K", &context("/w"), &vec![before], 0).unwrap().unwrap();
    assert_eq!(old.resolved_value, "1");
    engine.clear_cache();
    let new = engine.resolve_snapshots("K", &context("/w"), &vec![after], 1).unwrap().unwrap();
    assert_eq!(new.resolved_value, "2");
}
