//! Picks the provider for a configuration and detects the flavour of a root.

use vstd::prelude::*;
use crate::config::{MonorepoProviderType, WorkspaceConfig};
use crate::error::AbundantisError;
use crate::paths::{join_path, path_join};
use crate::text::{clone_strings, contains_within, stands_within, texts};
use crate::workspace::context::{PackageInfo, PackageInfoView};
use crate::workspace::provider::cargo::CargoProvider;
use crate::workspace::provider::custom::CustomProvider;
use crate::workspace::provider::lerna::LernaProvider;
use crate::workspace::provider::npm::NpmProvider;
use crate::workspace::provider::nx::NxProvider;
use crate::workspace::provider::pnpm::PnpmProvider;
use crate::workspace::provider::traits::{has_marker, marker_exists, MonorepoProvider};
use crate::workspace::provider::turbo::TurboProvider;
use crate::workspace::tree::{content_at, entry_views, find_entry, TreeEntry, TreeEntryView};

verus! {

/// One of the built-in providers.
#[derive(Debug)]
pub enum AnyProvider {
    Turbo(TurboProvider),
    Nx(NxProvider),
    Lerna(LernaProvider),
    Pnpm(PnpmProvider),
    Npm(NpmProvider),
    Cargo(CargoProvider),
    Custom(CustomProvider),
}

impl MonorepoProvider for AnyProvider {
    open spec fn kind(&self) -> MonorepoProviderType {
        match self {
            AnyProvider::Turbo(p) => p.kind(),
            AnyProvider::Nx(p) => p.kind(),
            AnyProvider::Lerna(p) => p.kind(),
            AnyProvider::Pnpm(p) => p.kind(),
            AnyProvider::Npm(p) => p.kind(),
            AnyProvider::Cargo(p) => p.kind(),
            AnyProvider::Custom(p) => p.kind(),
        }
    }

    open spec fn marker(&self) -> Seq<char> {
        match self {
            AnyProvider::Turbo(p) => p.marker(),
            AnyProvider::Nx(p) => p.marker(),
            AnyProvider::Lerna(p) => p.marker(),
            AnyProvider::Pnpm(p) => p.marker(),
            AnyProvider::Npm(p) => p.marker(),
            AnyProvider::Cargo(p) => p.marker(),
            AnyProvider::Custom(p) => p.marker(),
        }
    }

    open spec fn detects(&self, root: Seq<char>, entries: Seq<TreeEntryView>) -> bool {
        match self {
            AnyProvider::Turbo(p) => p.detects(root, entries),
            AnyProvider::Nx(p) => p.detects(root, entries),
            AnyProvider::Lerna(p) => p.detects(root, entries),
            AnyProvider::Pnpm(p) => p.detects(root, entries),
            AnyProvider::Npm(p) => p.detects(root, entries),
            AnyProvider::Cargo(p) => p.detects(root, entries),
            AnyProvider::Custom(p) => p.detects(root, entries),
        }
    }

    open spec fn packages(&self, root: Seq<char>, entries: Seq<TreeEntryView>) -> Seq<
        PackageInfoView,
    > {
        match self {
            AnyProvider::Turbo(p) => p.packages(root, entries),
            AnyProvider::Nx(p) => p.packages(root, entries),
            AnyProvider::Lerna(p) => p.packages(root, entries),
            AnyProvider::Pnpm(p) => p.packages(root, entries),
            AnyProvider::Npm(p) => p.packages(root, entries),
            AnyProvider::Cargo(p) => p.packages(root, entries),
            AnyProvider::Custom(p) => p.packages(root, entries),
        }
    }

    fn provider_type(&self) -> (r: MonorepoProviderType) {
        match self {
            AnyProvider::Turbo(p) => p.provider_type(),
            AnyProvider::Nx(p) => p.provider_type(),
            AnyProvider::Lerna(p) => p.provider_type(),
            AnyProvider::Pnpm(p) => p.provider_type(),
            AnyProvider::Npm(p) => p.provider_type(),
            AnyProvider::Cargo(p) => p.provider_type(),
            AnyProvider::Custom(p) => p.provider_type(),
        }
    }

    fn config_file(&self) -> (r: &'static str) {
        match self {
            AnyProvider::Turbo(p) => p.config_file(),
            AnyProvider::Nx(p) => p.config_file(),
            AnyProvider::Lerna(p) => p.config_file(),
            AnyProvider::Pnpm(p) => p.config_file(),
            AnyProvider::Npm(p) => p.config_file(),
            AnyProvider::Cargo(p) => p.config_file(),
            AnyProvider::Custom(p) => p.config_file(),
        }
    }

    fn detect(&self, root: &str, entries: &Vec<TreeEntry>) -> (r: bool) {
        match self {
            AnyProvider::Turbo(p) => p.detect(root, entries),
            AnyProvider::Nx(p) => p.detect(root, entries),
            AnyProvider::Lerna(p) => p.detect(root, entries),
            AnyProvider::Pnpm(p) => p.detect(root, entries),
            AnyProvider::Npm(p) => p.detect(root, entries),
            AnyProvider::Cargo(p) => p.detect(root, entries),
            AnyProvider::Custom(p) => p.detect(root, entries),
        }
    }

    fn discover_packages(&self, root: &str, entries: &Vec<TreeEntry>) -> (r: Result<
        Vec<PackageInfo>,
        AbundantisError,
    >) {
        match self {
            AnyProvider::Turbo(p) => p.discover_packages(root, entries),
            AnyProvider::Nx(p) => p.discover_packages(root, entries),
            AnyProvider::Lerna(p) => p.discover_packages(root, entries),
            AnyProvider::Pnpm(p) => p.discover_packages(root, entries),
            AnyProvider::Npm(p) => p.discover_packages(root, entries),
            AnyProvider::Cargo(p) => p.discover_packages(root, entries),
            AnyProvider::Custom(p) => p.discover_packages(root, entries),
        }
    }
}

/// The flavour that the files in the root show. The marks are looked for
/// in this order: `turbo.json`, `nx.json`, `lerna.json`,
/// `pnpm-workspace.yaml`, a `Cargo.toml` that holds `[workspace]`, a
/// `package.json` that holds `"workspaces"`.
pub open spec fn detected(root: Seq<char>, entries: Seq<TreeEntryView>) -> Option<
    MonorepoProviderType,
> {
    if has_marker(root, entries, "turbo.json"@) {
        Some(MonorepoProviderType::Turbo)
    } else if has_marker(root, entries, "nx.json"@) {
        Some(MonorepoProviderType::Nx)
    } else if has_marker(root, entries, "lerna.json"@) {
        Some(MonorepoProviderType::Lerna)
    } else if has_marker(root, entries, "pnpm-workspace.yaml"@) {
        Some(MonorepoProviderType::Pnpm)
    } else if holds(root, entries, "Cargo.toml"@, "[workspace]"@) {
        Some(MonorepoProviderType::Cargo)
    } else if holds(root, entries, "package.json"@, "\"workspaces\""@) {
        Some(MonorepoProviderType::Npm)
    } else {
        None
    }
}

/// Whether the file `name` in the root was read and holds `needle`.
pub open spec fn holds(
    root: Seq<char>,
    entries: Seq<TreeEntryView>,
    name: Seq<char>,
    needle: Seq<char>,
) -> bool {
    match content_at(entries, path_join(root, name)) {
        Some(text) => stands_within(text, needle),
        None => false,
    }
}

/// Whether the file `name` in the root was read and holds `needle`.
fn file_holds(root: &str, entries: &Vec<TreeEntry>, name: &str, needle: &str) -> (r: bool)
    ensures
        r == holds(root@, entry_views(entries@), name@, needle@),
{
    let path = join_path(root, name);
    match find_entry(entries, path.as_str()) {
        Some(at) => match &entries[at].content {
            Some(text) => contains_within(text.as_str(), needle),
            None => false,
        },
        None => false,
    }
}

pub struct ProviderRegistry {}

impl ProviderRegistry {
    /// The provider of the configured flavour; none where none is
    /// configured. Yarn workspaces are npm workspaces.
    pub fn create(config: &WorkspaceConfig) -> (r: Option<AnyProvider>)
        ensures
            r is Some == config.provider is Some,
            r matches Some(provider) ==> provider.kind() == match config.provider->0 {
                MonorepoProviderType::Yarn => MonorepoProviderType::Npm,
                other => other,
            },
            r matches Some(AnyProvider::Custom(custom)) ==> custom.patterns() == texts(
                config.roots@,
            ),
    {
        match config.provider {
            None => None,
            Some(provider_type) => Some(
                match provider_type {
                    MonorepoProviderType::Turbo => AnyProvider::Turbo(TurboProvider::new()),
                    MonorepoProviderType::Nx => AnyProvider::Nx(NxProvider::new()),
                    MonorepoProviderType::Lerna => AnyProvider::Lerna(LernaProvider::new()),
                    MonorepoProviderType::Pnpm => AnyProvider::Pnpm(PnpmProvider::new()),
                    MonorepoProviderType::Npm => AnyProvider::Npm(NpmProvider::new()),
                    MonorepoProviderType::Yarn => AnyProvider::Npm(NpmProvider::new()),
                    MonorepoProviderType::Cargo => AnyProvider::Cargo(CargoProvider::new()),
                    MonorepoProviderType::Custom => AnyProvider::Custom(
                        CustomProvider::new(clone_strings(&config.roots)),
                    ),
                },
            ),
        }
    }

    /// The flavour that the files in the root show.
    pub fn detect(root: &str, entries: &Vec<TreeEntry>) -> (r: Option<MonorepoProviderType>)
        ensures
            r == detected(root@, entry_views(entries@)),
    {
        if marker_exists(root, entries, "turbo.json") {
            return Some(MonorepoProviderType::Turbo);
        }
        if marker_exists(root, entries, "nx.json") {
            return Some(MonorepoProviderType::Nx);
        }
        if marker_exists(root, entries, "lerna.json") {
            return Some(MonorepoProviderType::Lerna);
        }
        if marker_exists(root, entries, "pnpm-workspace.yaml") {
            return Some(MonorepoProviderType::Pnpm);
        }
        if file_holds(root, entries, "Cargo.toml", "[workspace]") {
            return Some(MonorepoProviderType::Cargo);
        }
        if file_holds(root, entries, "package.json", "\"workspaces\"") {
            return Some(MonorepoProviderType::Npm);
        }
        None
    }
}

} // verus!
