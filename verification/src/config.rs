//! Configuration of the workspace, of resolution, interpolation, caching and
//! the default sources.

use vstd::prelude::*;
use crate::clock::{duration_from_secs, duration_nanos};
use crate::text::texts;

verus! {

/// The monorepo flavours a workspace can be discovered with.
#[derive(Debug, Clone, Copy, PartialEq, Eq, Hash, Structural)]
pub enum MonorepoProviderType {
    Turbo,
    Nx,
    Lerna,
    Pnpm,
    Npm,
    Yarn,
    Cargo,
    Custom,
}

/// A class of sources that takes part in resolution.
#[derive(Debug, Clone, Copy, PartialEq, Eq, Structural)]
pub enum SourcePrecedence {
    Shell,
    File,
    Remote,
}

/// How several dotenv files that define one key are combined.
#[derive(Debug, Clone, Copy, PartialEq, Eq, Structural)]
pub enum FileMergeMode {
    Merge,
    Override,
}

impl Default for FileMergeMode {
    fn default() -> (r: Self)
        ensures
            r == FileMergeMode::Merge,
    {
        FileMergeMode::Merge
    }
}

pub open spec fn default_env_files_spec() -> Seq<Seq<char>> {
    seq![".env"@, ".env.local"@, ".env.development"@, ".env.production"@]
}

pub open spec fn default_ignores_spec() -> Seq<Seq<char>> {
    seq![
        "**/node_modules/**"@,
        "**/.git/**"@,
        "**/target/**"@,
        "**/dist/**"@,
        "**/build/**"@,
    ]
}

pub open spec fn default_file_order_spec() -> Seq<Seq<char>> {
    seq![".env"@, ".env.local"@]
}

pub open spec fn default_precedence_spec() -> Seq<SourcePrecedence> {
    seq![SourcePrecedence::Shell, SourcePrecedence::File]
}

pub fn default_env_files() -> (v: Vec<String>)
    ensures
        texts(v@) == default_env_files_spec(),
{
    let mut v: Vec<String> = Vec::new();
    v.push(".env".to_owned());
    v.push(".env.local".to_owned());
    v.push(".env.development".to_owned());
    v.push(".env.production".to_owned());
    assert(texts(v@) =~= default_env_files_spec());
    v
}

pub fn default_ignores() -> (v: Vec<String>)
    ensures
        texts(v@) == default_ignores_spec(),
{
    let mut v: Vec<String> = Vec::new();
    v.push("**/node_modules/**".to_owned());
    v.push("**/.git/**".to_owned());
    v.push("**/target/**".to_owned());
    v.push("**/dist/**".to_owned());
    v.push("**/build/**".to_owned());
    assert(texts(v@) =~= default_ignores_spec());
    v
}

pub fn default_file_order() -> (v: Vec<String>)
    ensures
        texts(v@) == default_file_order_spec(),
{
    let mut v: Vec<String> = Vec::new();
    v.push(".env".to_owned());
    v.push(".env.local".to_owned());
    assert(texts(v@) =~= default_file_order_spec());
    v
}

pub fn default_precedence() -> (v: Vec<SourcePrecedence>)
    ensures
        v@ == default_precedence_spec(),
{
    let mut v: Vec<SourcePrecedence> = Vec::new();
    v.push(SourcePrecedence::Shell);
    v.push(SourcePrecedence::File);
    assert(v@ =~= default_precedence_spec());
    v
}

pub fn default_max_depth() -> (d: u32)
    ensures
        d == 64,
{
    64
}

pub fn default_true() -> (b: bool)
    ensures
        b,
{
    true
}

/// Where the workspace lies and how its packages and dotenv files are found.
#[derive(Debug, Clone)]
pub struct WorkspaceConfig {
    pub root: Option<String>,
    pub provider: Option<MonorepoProviderType>,
    pub roots: Vec<String>,
    pub cascading: bool,
    pub env_files: Vec<String>,
    pub ignores: Vec<String>,
}

impl Default for WorkspaceConfig {
    fn default() -> (r: Self)
        ensures
            r.root is None,
            r.provider is None,
            r.roots@.len() == 0,
            !r.cascading,
            texts(r.env_files@) == default_env_files_spec(),
            texts(r.ignores@) == default_ignores_spec(),
    {
        WorkspaceConfig {
            root: None,
            provider: None,
            roots: Vec::new(),
            cascading: false,
            env_files: default_env_files(),
            ignores: default_ignores(),
        }
    }
}

/// The order in which dotenv files override each other.
#[derive(Debug, Clone)]
pub struct FileResolutionConfig {
    pub mode: FileMergeMode,
    pub order: Vec<String>,
}

impl Default for FileResolutionConfig {
    fn default() -> (r: Self)
        ensures
            r.mode == FileMergeMode::Merge,
            texts(r.order@) == default_file_order_spec(),
    {
        FileResolutionConfig { mode: FileMergeMode::Merge, order: default_file_order() }
    }
}

/// Which sources take part in resolution, and in what order files apply.
#[derive(Debug, Clone)]
pub struct ResolutionConfig {
    pub precedence: Vec<SourcePrecedence>,
    pub files: FileResolutionConfig,
    pub type_check: bool,
}

impl Default for ResolutionConfig {
    fn default() -> (r: Self)
        ensures
            r.precedence@ == default_precedence_spec(),
            r.files.mode == FileMergeMode::Merge,
            texts(r.files.order@) == default_file_order_spec(),
            r.type_check,
    {
        ResolutionConfig {
            precedence: default_precedence(),
            files: FileResolutionConfig::default(),
            type_check: true,
        }
    }
}

/// The precedence list that the enabled default sources give: shell, then
/// file, then remote, each only where it is switched on.
pub open spec fn precedence_of_defaults(d: SourceDefaults) -> Seq<SourcePrecedence> {
    (if d.shell { seq![SourcePrecedence::Shell] } else { Seq::empty() })
        + (if d.file { seq![SourcePrecedence::File] } else { Seq::empty() })
        + (if d.remote { seq![SourcePrecedence::Remote] } else { Seq::empty() })
}

impl ResolutionConfig {
    pub fn precedence_from_defaults(defaults: &SourceDefaults) -> (v: Vec<SourcePrecedence>)
        ensures
            v@ == precedence_of_defaults(*defaults),
    {
        let mut precedence: Vec<SourcePrecedence> = Vec::new();
        if defaults.shell {
            precedence.push(SourcePrecedence::Shell);
        }
        if defaults.file {
            precedence.push(SourcePrecedence::File);
        }
        if defaults.remote {
            precedence.push(SourcePrecedence::Remote);
        }
        assert(precedence@ =~= precedence_of_defaults(*defaults));
        precedence
    }
}

/// Whether two resolution settings say the same.
pub open spec fn same_resolution(a: ResolutionConfig, b: ResolutionConfig) -> bool {
    &&& a.precedence@ == b.precedence@
    &&& a.files.mode == b.files.mode
    &&& texts(a.files.order@) == texts(b.files.order@)
    &&& a.type_check == b.type_check
}

/// A copy of resolution settings.
pub fn clone_resolution(config: &ResolutionConfig) -> (r: ResolutionConfig)
    ensures
        same_resolution(r, *config),
{
    let mut precedence: Vec<SourcePrecedence> = Vec::new();
    let mut i: usize = 0;
    while i < config.precedence.len()
        invariant
            i <= config.precedence.len(),
            precedence@ == config.precedence@.take(i as int),
        decreases config.precedence.len() - i,
    {
        precedence.push(config.precedence[i]);
        proof {
            assert(config.precedence@.take(i + 1) =~= config.precedence@.take(i as int).push(
                config.precedence@[i as int],
            ));
        }
        i += 1;
    }
    proof {
        assert(config.precedence@.take(config.precedence.len() as int) =~= config.precedence@);
    }
    ResolutionConfig {
        precedence,
        files: FileResolutionConfig {
            mode: config.files.mode,
            order: crate::text::clone_strings(&config.files.order),
        },
        type_check: config.type_check,
    }
}

/// The substitution forms that interpolation accepts.
#[derive(Debug, Clone, Copy, PartialEq, Eq, Structural)]
pub struct InterpolationFeatures {
    pub defaults: bool,
    pub alternates: bool,
    pub recursion: bool,
    pub commands: bool,
}

impl Default for InterpolationFeatures {
    fn default() -> (r: Self)
        ensures
            r.defaults,
            r.alternates,
            r.recursion,
            !r.commands,
    {
        InterpolationFeatures { defaults: true, alternates: true, recursion: true, commands: false }
    }
}

/// Whether values are interpolated, and how deep references may nest.
#[derive(Debug, Clone, Copy, PartialEq, Eq, Structural)]
pub struct InterpolationConfig {
    pub enabled: bool,
    pub max_depth: u32,
    pub features: InterpolationFeatures,
}

impl Default for InterpolationConfig {
    fn default() -> (r: Self)
        ensures
            r.enabled,
            r.max_depth == 64,
            r.features.defaults,
            r.features.alternates,
            r.features.recursion,
            !r.features.commands,
    {
        InterpolationConfig {
            enabled: true,
            max_depth: default_max_depth(),
            features: InterpolationFeatures::default(),
        }
    }
}

/// Which built-in sources are registered when nothing else is said.
#[derive(Debug, Clone, Copy, PartialEq, Eq, Structural)]
pub struct SourceDefaults {
    pub shell: bool,
    pub file: bool,
    pub remote: bool,
}

impl Default for SourceDefaults {
    fn default() -> (r: Self)
        ensures
            r.shell,
            r.file,
            !r.remote,
    {
        SourceDefaults { shell: true, file: true, remote: false }
    }
}

#[derive(Debug, Clone, Copy, PartialEq, Eq, Structural)]
pub struct SourcesConfig {
    pub defaults: SourceDefaults,
}

impl Default for SourcesConfig {
    fn default() -> (r: Self)
        ensures
            r.defaults.shell,
            r.defaults.file,
            !r.defaults.remote,
    {
        SourcesConfig { defaults: SourceDefaults::default() }
    }
}

/// Whether resolutions are cached, how many the bounded tier holds and how
/// long an entry lives.
#[derive(Debug, Clone, Copy)]
pub struct CacheConfig {
    pub enabled: bool,
    pub hot_cache_size: usize,
    pub ttl: std::time::Duration,
}

impl Default for CacheConfig {
    fn default() -> (r: Self)
        ensures
            r.enabled,
            r.hot_cache_size == 1000,
            duration_nanos(r.ttl) == 300 * 1_000_000_000,
    {
        CacheConfig { enabled: true, hot_cache_size: 1000, ttl: duration_from_secs(300) }
    }
}

/// The whole configuration.
#[derive(Debug, Clone)]
pub struct AbundantisConfig {
    pub workspace: WorkspaceConfig,
    pub resolution: ResolutionConfig,
    pub interpolation: InterpolationConfig,
    pub cache: CacheConfig,
    pub sources: SourcesConfig,
}

/// Whether a configuration is the default one: no root, no provider and no
/// roots, no cascading, the default file names, ignores, precedence and file
/// order, files merged, the circle check on, interpolation on and 64 deep
/// with every form but commands, the cache on with 1000 entries that live
/// for 300 seconds, and the shell and the files as sources.
pub open spec fn is_default_config(c: AbundantisConfig) -> bool {
    &&& c.workspace.root is None
    &&& c.workspace.provider is None
    &&& c.workspace.roots@.len() == 0
    &&& !c.workspace.cascading
    &&& texts(c.workspace.env_files@) == default_env_files_spec()
    &&& texts(c.workspace.ignores@) == default_ignores_spec()
    &&& c.resolution.precedence@ == default_precedence_spec()
    &&& c.resolution.files.mode == FileMergeMode::Merge
    &&& texts(c.resolution.files.order@) == default_file_order_spec()
    &&& c.resolution.type_check
    &&& c.interpolation.enabled
    &&& c.interpolation.max_depth == 64
    &&& c.interpolation.features.defaults
    &&& c.interpolation.features.alternates
    &&& c.interpolation.features.recursion
    &&& !c.interpolation.features.commands
    &&& c.cache.enabled
    &&& c.cache.hot_cache_size == 1000
    &&& duration_nanos(c.cache.ttl) == 300 * 1_000_000_000
    &&& c.sources.defaults.shell
    &&& c.sources.defaults.file
    &&& !c.sources.defaults.remote
}

impl Default for AbundantisConfig {
    fn default() -> (r: Self)
        ensures
            is_default_config(r),
    {
        AbundantisConfig {
            workspace: WorkspaceConfig::default(),
            resolution: ResolutionConfig::default(),
            interpolation: InterpolationConfig::default(),
            cache: CacheConfig::default(),
            sources: SourcesConfig::default(),
        }
    }
}

} // verus!
