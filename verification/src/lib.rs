//! Unified resolution of environment variables for single projects and
//! monorepos: sources, precedence, interpolation, caching and file selection.

use vstd::prelude::*;

pub mod builder;
pub mod clock;
pub mod config;
pub mod error;
pub mod events;
pub mod facade;
pub mod path_cache;
pub mod paths;
pub mod resolution;
pub mod selection;
pub mod source;
pub mod text;
pub mod watch;
pub mod watch_manager;
pub mod workspace;

pub use builder::AbundantisBuilder;
pub use config::{
    AbundantisConfig, CacheConfig, InterpolationConfig, MonorepoProviderType, ResolutionConfig,
    SourceDefaults, SourcesConfig,
};
pub use error::{AbundantisError, Diagnostic, DiagnosticCode, DiagnosticSeverity, SourceError};
pub use events::{AbundantisEvent, EventBus, EventSubscriber};
pub use facade::Abundantis;
pub use path_cache::PathCache;
pub use resolution::{
    CacheKey, DependencyGraph, ResolutionCache, ResolutionEngine, ResolvedVariable,
};
pub use source::{
    EnvSource, FileSource, FileSourceManager, MemorySource, ParsedVariable, Priority,
    ShellSource, SourceCapabilities, SourceId, SourceRefreshOptions, SourceType, VariableSource,
};
pub use watch_manager::WatchManager;
pub use workspace::{PackageInfo, WorkspaceContext, WorkspaceManager};

verus! {

/// The version of the library.
pub const VERSION: &'static str = "0.1.0";

/// Which parts of the configuration a refresh keeps.
#[derive(Debug, Clone, Copy, PartialEq, Eq, Structural)]
pub struct RefreshOptions {
    pub preserve_file_config: bool,
    pub preserve_shell_config: bool,
    pub preserve_remote_config: bool,
    pub preserve_precedence: bool,
}

impl RefreshOptions {
    pub fn preserve_all() -> (r: Self)
        ensures
            r == (RefreshOptions {
                preserve_file_config: true,
                preserve_shell_config: true,
                preserve_remote_config: true,
                preserve_precedence: true,
            }),
    {
        RefreshOptions {
            preserve_file_config: true,
            preserve_shell_config: true,
            preserve_remote_config: true,
            preserve_precedence: true,
        }
    }

    pub fn reset_all() -> (r: Self)
        ensures
            r == (RefreshOptions {
                preserve_file_config: false,
                preserve_shell_config: false,
                preserve_remote_config: false,
                preserve_precedence: false,
            }),
    {
        RefreshOptions {
            preserve_file_config: false,
            preserve_shell_config: false,
            preserve_remote_config: false,
            preserve_precedence: false,
        }
    }
}

impl Default for RefreshOptions {
    fn default() -> (r: Self)
        ensures
            r == (RefreshOptions {
                preserve_file_config: false,
                preserve_shell_config: false,
                preserve_remote_config: false,
                preserve_precedence: false,
            }),
    {
        RefreshOptions::reset_all()
    }
}

/// Counters of a running instance.
#[derive(Debug, Clone, Copy, PartialEq, Eq, Structural)]
pub struct AbundantisStats {
    pub cached_variables: usize,
    pub source_count: usize,
}

} // verus!
