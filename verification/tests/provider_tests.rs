use abundantis::config::{MonorepoProviderType, WorkspaceConfig};
use abundantis::error::AbundantisError;
use abundantis::workspace::provider::{
    AnyProvider, CargoProvider, CustomProvider, LernaProvider, MonorepoProvider, NpmProvider,
    NxProvider, PnpmProvider, ProviderRegistry, TurboProvider,
};
use abundantis::workspace::{PackageInfo, TreeEntry, WorkspaceManager};

fn dir(path: &str, names: &[&str]) -> TreeEntry {
    TreeEntry {
        path: path.to_string(),
        names: names.iter().map(|n| n.to_string()).collect(),
        depth: names.len() - 1,
        is_dir: true,
        content: None,
    }
}

fn file(path: &str, names: &[&str], content: &str) -> TreeEntry {
    TreeEntry {
        path: path.to_string(),
        names: names.iter().map(|n| n.to_string()).collect(),
        depth: names.len() - 1,
        is_dir: false,
        content: Some(content.to_string()),
    }
}

fn js_tree(root_files: Vec<TreeEntry>) -> Vec<TreeEntry> {
    let mut entries = vec![dir("/w", &["w"])];
    entries.extend(root_files);
    entries.extend(vec![
        dir("/w/packages", &["w", "packages"]),
        dir("/w/packages/app", &["w", "packages", "app"]),
        file(
            "/w/packages/app/package.json",
            &["w", "packages", "app", "package.json"],
            "{\"name\": \"@scope/app\", \"version\": \"1.0.0\"}",
        ),
        dir("/w/packages/lib", &["w", "packages", "lib"]),
        file("/w/packages/lib/package.json", &["w", "packages", "lib", "package.json"], "{}"),
        dir("/w/packages/empty", &["w", "packages", "empty"]),
        dir("/w/packages/node_modules", &["w", "packages", "node_modules"]),
        file(
            "/w/packages/node_modules/package.json",
            &["w", "packages", "node_modules", "package.json"],
            "{\"name\": \"hidden\"}",
        ),
        dir("/w/tools", &["w", "tools"]),
        dir("/w/tools/cli", &["w", "tools", "cli"]),
        file(
            "/w/tools/cli/package.json",
            &["w", "tools", "cli", "package.json"],
            "{\"name\": \"cli\"}",
        ),
    ]);
    entries
}

fn summary(packages: &[PackageInfo]) -> Vec<(String, Option<String>, String)> {
    packages.iter().map(|p| (p.root.clone(), p.name.clone(), p.relative_path.clone())).collect()
}

fn package(root: &str, name: Option<&str>, relative: &str) -> (String, Option<String>, String) {
    (root.to_string(), name.map(|n| n.to_string()), relative.to_string())
}

#[test]
fn pnpm_expands_the_patterns_of_its_workspace_file() {
    let entries = js_tree(vec![file(
        "/w/pnpm-workspace.yaml",
        &["w", "pnpm-workspace.yaml"],
        "packages:\n  - 'packages/*'\n  - 'tools/*'\n  - '!packages/lib'\n",
    )]);
    let provider = PnpmProvider::new();
    assert!(provider.detect("/w", &entries));
    assert_eq!(provider.provider_type(), MonorepoProviderType::Pnpm);
    assert_eq!(provider.config_file(), "pnpm-workspace.yaml");
    let found = provider.discover_packages("/w", &entries).unwrap();
    assert_eq!(
        summary(&found),
        vec![
            package("/w/packages/app", Some("@scope/app"), "packages/app"),
            package("/w/tools/cli", Some("cli"), "tools/cli"),
        ]
    );
}

#[test]
fn pnpm_without_readable_file_takes_the_default_pattern() {
    let entries = js_tree(vec![]);
    let provider = PnpmProvider::new();
    assert!(!provider.detect("/w", &entries));
    let found = provider.discover_packages("/w", &entries).unwrap();
    assert_eq!(
        summary(&found),
        vec![
            package("/w/packages/app", Some("@scope/app"), "packages/app"),
            package("/w/packages/lib", None, "packages/lib"),
        ]
    );
}

#[test]
fn pnpm_without_packages_key_has_no_packages() {
    let entries =
        js_tree(vec![file("/w/pnpm-workspace.yaml", &["w", "pnpm-workspace.yaml"], "other: 1\n")]);
    let found = PnpmProvider::new().discover_packages("/w", &entries).unwrap();
    assert!(found.is_empty());
}

#[test]
fn npm_reads_workspaces_as_list_and_as_object() {
    let as_list = js_tree(vec![file(
        "/w/package.json",
        &["w", "package.json"],
        "{\"name\": \"root\", \"workspaces\": [\"tools/*\"]}",
    )]);
    let provider = NpmProvider::new();
    assert!(provider.detect("/w", &as_list));
    let found = provider.discover_packages("/w", &as_list).unwrap();
    assert_eq!(summary(&found), vec![package("/w/tools/cli", Some("cli"), "tools/cli")]);

    let as_object = js_tree(vec![file(
        "/w/package.json",
        &["w", "package.json"],
        "{\"workspaces\": {\"packages\": [\"packages/a*\"]}}",
    )]);
    let found = provider.discover_packages("/w", &as_object).unwrap();
    assert_eq!(
        summary(&found),
        vec![package("/w/packages/app", Some("@scope/app"), "packages/app")]
    );

    let without = js_tree(vec![file("/w/package.json", &["w", "package.json"], "{\"name\": \"x\"}")]);
    assert!(!provider.detect("/w", &without));
    assert!(provider.discover_packages("/w", &without).unwrap().is_empty());
}

#[test]
fn lerna_defaults_to_packages() {
    let entries = js_tree(vec![file("/w/lerna.json", &["w", "lerna.json"], "{\"version\": \"1\"}")]);
    let provider = LernaProvider::new();
    assert!(provider.detect("/w", &entries));
    let found = provider.discover_packages("/w", &entries).unwrap();
    assert_eq!(found.len(), 2);
    let named = js_tree(vec![file(
        "/w/lerna.json",
        &["w", "lerna.json"],
        "{\"packages\": [\"tools/*\"], \"version\": \"1\"}",
    )]);
    let found = provider.discover_packages("/w", &named).unwrap();
    assert_eq!(summary(&found), vec![package("/w/tools/cli", Some("cli"), "tools/cli")]);
}

#[test]
fn turbo_takes_pnpm_where_its_file_is_there_and_npm_else() {
    let with_pnpm = js_tree(vec![
        file("/w/turbo.json", &["w", "turbo.json"], "{}"),
        file("/w/pnpm-workspace.yaml", &["w", "pnpm-workspace.yaml"], "packages:\n  - 'tools/*'\n"),
        file("/w/package.json", &["w", "package.json"], "{\"workspaces\": [\"packages/*\"]}"),
    ]);
    let provider = TurboProvider::new();
    assert!(provider.detect("/w", &with_pnpm));
    let found = provider.discover_packages("/w", &with_pnpm).unwrap();
    assert_eq!(summary(&found), vec![package("/w/tools/cli", Some("cli"), "tools/cli")]);

    let with_npm = js_tree(vec![
        file("/w/turbo.json", &["w", "turbo.json"], "{}"),
        file("/w/package.json", &["w", "package.json"], "{\"workspaces\": [\"tools/*\"]}"),
    ]);
    let found = provider.discover_packages("/w", &with_npm).unwrap();
    assert_eq!(summary(&found), vec![package("/w/tools/cli", Some("cli"), "tools/cli")]);
}

#[test]
fn nx_takes_every_project_file() {
    let entries = vec![
        dir("/w", &["w"]),
        file("/w/nx.json", &["w", "nx.json"], "{}"),
        dir("/w/apps", &["w", "apps"]),
        dir("/w/apps/web", &["w", "apps", "web"]),
        file("/w/apps/web/project.json", &["w", "apps", "web", "project.json"], "{\"name\": \"web\"}"),
        dir("/w/build", &["w", "build"]),
        file("/w/build/project.json", &["w", "build", "project.json"], "{\"name\": \"built\"}"),
        dir("/w/libs", &["w", "libs"]),
        file("/w/libs/project.json", &["w", "libs", "project.json"], "not json"),
    ];
    let provider = NxProvider::new();
    assert!(provider.detect("/w", &entries));
    let found = provider.discover_packages("/w", &entries).unwrap();
    assert_eq!(
        summary(&found),
        vec![package("/w/apps/web", Some("web"), "apps/web"), package("/w/libs", None, "libs")]
    );
}

#[test]
fn cargo_reads_members_and_globs() {
    let entries = vec![
        dir("/w", &["w"]),
        file(
            "/w/Cargo.toml",
            &["w", "Cargo.toml"],
            "[workspace]\nmembers = [\"core\", \"crates/*\", \"missing\"]\n",
        ),
        dir("/w/core", &["w", "core"]),
        file("/w/core/Cargo.toml", &["w", "core", "Cargo.toml"], "[package]\nname = \"core\"\n"),
        dir("/w/crates", &["w", "crates"]),
        dir("/w/crates/a", &["w", "crates", "a"]),
        file("/w/crates/a/Cargo.toml", &["w", "crates", "a", "Cargo.toml"], "[package]\nname = \"a\"\n"),
        dir("/w/crates/b", &["w", "crates", "b"]),
        dir("/w/target", &["w", "target"]),
    ];
    let provider = CargoProvider::new();
    assert!(provider.detect("/w", &entries));
    let found = provider.discover_packages("/w", &entries).unwrap();
    assert_eq!(
        summary(&found),
        vec![package("/w/core", Some("core"), "core"), package("/w/crates/a", Some("a"), "crates/a")]
    );
    let plain = vec![
        dir("/w", &["w"]),
        file("/w/Cargo.toml", &["w", "Cargo.toml"], "[package]\nname = \"solo\"\n"),
    ];
    assert!(!provider.detect("/w", &plain));
}

#[test]
fn custom_takes_the_root_and_matching_directories() {
    let entries = js_tree(vec![]);
    let provider = CustomProvider::new(vec![".".to_string(), "tools/*".to_string()]);
    assert!(provider.detect("/w", &entries));
    assert_eq!(provider.config_file(), ".ecolog.toml");
    let found = provider.discover_packages("/w", &entries).unwrap();
    assert_eq!(
        summary(&found),
        vec![package("/w", None, "."), package("/w/tools/cli", None, "tools/cli")]
    );
    let invalid = CustomProvider::new(vec!["a[".to_string()]);
    assert!(invalid.discover_packages("/w", &entries).unwrap().is_empty());
}

#[test]
fn flavour_is_detected_in_order_of_the_marks() {
    let marked = |names: &[(&str, &str)]| -> Vec<TreeEntry> {
        let mut entries = vec![dir("/w", &["w"])];
        for (name, content) in names {
            entries.push(file(&format!("/w/{}", name), &["w", name], content));
        }
        entries
    };
    assert_eq!(
        ProviderRegistry::detect("/w", &marked(&[("nx.json", "{}"), ("turbo.json", "{}")])),
        Some(MonorepoProviderType::Turbo)
    );
    assert_eq!(
        ProviderRegistry::detect("/w", &marked(&[("lerna.json", "{}"), ("nx.json", "{}")])),
        Some(MonorepoProviderType::Nx)
    );
    assert_eq!(
        ProviderRegistry::detect("/w", &marked(&[("lerna.json", "{}")])),
        Some(MonorepoProviderType::Lerna)
    );
    assert_eq!(
        ProviderRegistry::detect("/w", &marked(&[("pnpm-workspace.yaml", ""), ("Cargo.toml", "[workspace]")])),
        Some(MonorepoProviderType::Pnpm)
    );
    assert_eq!(
        ProviderRegistry::detect(
            "/w",
            &marked(&[("Cargo.toml", "[workspace]\n"), ("package.json", "{\"workspaces\": []}")])
        ),
        Some(MonorepoProviderType::Cargo)
    );
    assert_eq!(
        ProviderRegistry::detect(
            "/w",
            &marked(&[("Cargo.toml", "[package]\n"), ("package.json", "{\"workspaces\": []}")])
        ),
        Some(MonorepoProviderType::Npm)
    );
    assert_eq!(ProviderRegistry::detect("/w", &marked(&[("package.json", "{}")])), None);
    assert_eq!(ProviderRegistry::detect("/w", &marked(&[])), None);
}

#[test]
fn registry_creates_the_configured_provider() {
    let none = WorkspaceConfig::default();
    assert!(ProviderRegistry::create(&none).is_none());
    let yarn = WorkspaceConfig { provider: Some(MonorepoProviderType::Yarn), ..Default::default() };
    assert!(matches!(ProviderRegistry::create(&yarn), Some(AnyProvider::Npm(_))));
    let custom = WorkspaceConfig {
        provider: Some(MonorepoProviderType::Custom),
        roots: vec![".".to_string()],
        ..Default::default()
    };
    let provider = ProviderRegistry::create(&custom).unwrap();
    assert_eq!(provider.provider_type(), MonorepoProviderType::Custom);
    let found = provider.discover_packages("/w", &vec![dir("/w", &["w"])]).unwrap();
    assert_eq!(summary(&found), vec![package("/w", None, ".")]);
}

#[test]
fn manager_refuses_a_workspace_without_provider_or_marks() {
    let entries = vec![dir("/w", &["w"])];
    match WorkspaceManager::with_root("/w", WorkspaceConfig::default(), &entries) {
        Err(AbundantisError::MissingConfig { field, .. }) => assert_eq!(field, "workspace.provider"),
        _ => panic!("expected a missing provider"),
    }
    let turbo = WorkspaceConfig { provider: Some(MonorepoProviderType::Turbo), ..Default::default() };
    match WorkspaceManager::with_root("/w", turbo, &entries) {
        Err(AbundantisError::ProviderConfigNotFound { expected_file, search_path }) => {
            assert_eq!(expected_file, "turbo.json");
            assert_eq!(search_path, "/w");
        },
        _ => panic!("expected missing marks"),
    }
}

#[test]
fn manager_gives_each_file_the_scope_of_its_deepest_package() {
    let entries = vec![
        dir("/w", &["w"]),
        dir("/w/apps", &["w", "apps"]),
        dir("/w/apps/x", &["w", "apps", "x"]),
    ];
    let config = WorkspaceConfig {
        provider: Some(MonorepoProviderType::Custom),
        roots: vec![".".to_string(), "apps/*".to_string()],
        cascading: true,
        env_files: vec![".env".to_string(), ".env.local".to_string()],
        ..Default::default()
    };
    let mut manager = WorkspaceManager::with_root("/w", config, &entries).unwrap();
    assert_eq!(manager.root(), "/w");
    assert_eq!(manager.packages().len(), 2);
    let candidates = manager.candidate_env_files();
    assert!(candidates.contains(&"/w/.env".to_string()));
    assert!(candidates.contains(&"/w/apps/x/.env.local".to_string()));
    let existing = vec!["/w/.env".to_string(), "/w/apps/x/.env".to_string()];

    let context = manager.context_for_file("/w/apps/x/main", Some("/w/apps/x/main"), &existing).unwrap();
    assert_eq!(context.workspace_root, "/w");
    assert_eq!(context.package_root, "/w/apps/x");
    assert_eq!(context.env_files, vec!["/w/.env".to_string(), "/w/apps/x/.env".to_string()]);

    let again = manager.context_for_file("/w/apps/x/main", None, &Vec::new()).unwrap();
    assert_eq!(again.env_files, context.env_files);

    let at_root = manager.context_for_file("/w/readme", Some("/w/readme"), &existing).unwrap();
    assert_eq!(at_root.package_root, "/w");
    assert_eq!(at_root.env_files, vec!["/w/.env".to_string()]);

    assert!(manager.context_for_file("/elsewhere/f", Some("/elsewhere/f"), &existing).is_none());
    assert!(manager.context_for_file("/w/gone", None, &existing).is_none());

    manager.refresh(&entries).unwrap();
    assert!(manager.context_for_file("/w/apps/x/main", None, &Vec::new()).is_none());
}

#[test]
fn manager_without_cascading_lists_only_the_files_of_the_package() {
    let entries = vec![dir("/w", &["w"]), dir("/w/apps", &["w", "apps"]), dir("/w/apps/x", &["w", "apps", "x"])];
    let config = WorkspaceConfig {
        provider: Some(MonorepoProviderType::Custom),
        roots: vec!["apps/*".to_string()],
        cascading: false,
        env_files: vec![".env".to_string()],
        ..Default::default()
    };
    let mut manager = WorkspaceManager::with_root("/w", config, &entries).unwrap();
    let existing = vec!["/w/.env".to_string(), "/w/apps/x/.env".to_string()];
    let context = manager.context_for_file("f", Some("/w/apps/x/f"), &existing).unwrap();
    assert_eq!(context.env_files, vec!["/w/apps/x/.env".to_string()]);
}
