//! The Turborepo flavour, which takes its packages from pnpm or npm.

use vstd::prelude::*;
use crate::config::MonorepoProviderType;
use crate::error::AbundantisError;
use crate::workspace::context::{PackageInfo, PackageInfoView};
use crate::workspace::provider::npm::NpmProvider;
use crate::workspace::provider::pnpm::PnpmProvider;
use crate::workspace::provider::traits::{has_marker, marker_exists, MonorepoProvider};
use crate::workspace::tree::{TreeEntry, TreeEntryView};

verus! {

#[derive(Debug, Clone, Copy, PartialEq, Eq, Structural)]
pub struct TurboProvider {}

impl TurboProvider {
    pub fn new() -> (r: Self) {
        TurboProvider {  }
    }
}

impl Default for TurboProvider {
    fn default() -> (r: Self) {
        TurboProvider::new()
    }
}

impl MonorepoProvider for TurboProvider {
    open spec fn kind(&self) -> MonorepoProviderType {
        MonorepoProviderType::Turbo
    }

    open spec fn marker(&self) -> Seq<char> {
        "turbo.json"@
    }

    open spec fn detects(&self, root: Seq<char>, entries: Seq<TreeEntryView>) -> bool {
        has_marker(root, entries, "turbo.json"@)
    }

    /// The packages of pnpm where a `pnpm-workspace.yaml` stands in the
    /// root, else those of npm.
    open spec fn packages(&self, root: Seq<char>, entries: Seq<TreeEntryView>) -> Seq<
        PackageInfoView,
    > {
        if has_marker(root, entries, "pnpm-workspace.yaml"@) {
            (PnpmProvider {  }).packages(root, entries)
        } else {
            (NpmProvider {  }).packages(root, entries)
        }
    }

    fn provider_type(&self) -> (r: MonorepoProviderType) {
        MonorepoProviderType::Turbo
    }

    fn config_file(&self) -> (r: &'static str) {
        "turbo.json"
    }

    fn detect(&self, root: &str, entries: &Vec<TreeEntry>) -> (r: bool) {
        marker_exists(root, entries, "turbo.json")
    }

    fn discover_packages(&self, root: &str, entries: &Vec<TreeEntry>) -> (r: Result<
        Vec<PackageInfo>,
        AbundantisError,
    >) {
        if marker_exists(root, entries, "pnpm-workspace.yaml") {
            return PnpmProvider::new().discover_packages(root, entries);
        }
        NpmProvider::new().discover_packages(root, entries)
    }
}

} // verus!
