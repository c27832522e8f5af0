//! Per-source settings.

use vstd::prelude::*;
use crate::selection::{scope_views, DirectoryScope};
use crate::text::{clone_strings, texts};

verus! {

/// Which dotenv files are active, globally and per directory.
#[derive(Debug)]
pub struct FileSourceConfig {
    pub active_files: Option<Vec<String>>,
    pub directory_overrides: Vec<DirectoryScope>,
}

/// The patterns of an optional list.
pub open spec fn opt_texts(o: Option<Vec<String>>) -> Option<Seq<Seq<char>>> {
    match o {
        Some(list) => Some(texts(list@)),
        None => None,
    }
}

/// Copies an optional list of patterns.
pub fn clone_opt_strings(o: &Option<Vec<String>>) -> (r: Option<Vec<String>>)
    ensures
        opt_texts(r) == opt_texts(*o),
        r is Some ==> r->0@ == o->0@,
{
    match o {
        Some(list) => Some(clone_strings(list)),
        None => None,
    }
}

/// Copies a list of directory scopes.
pub fn clone_scopes(scopes: &Vec<DirectoryScope>) -> (r: Vec<DirectoryScope>)
    ensures
        scope_views(r@) == scope_views(scopes@),
{
    let mut out: Vec<DirectoryScope> = Vec::new();
    let mut i: usize = 0;
    while i < scopes.len()
        invariant
            i <= scopes.len(),
            out@.len() == i,
            forall|k: int| 0 <= k < i ==> (#[trigger] out@[k])@ == scopes@[k]@,
        decreases scopes.len() - i,
    {
        out.push(scopes[i].clone());
        i += 1;
    }
    assert(scope_views(out@) =~= scope_views(scopes@));
    out
}

impl Clone for FileSourceConfig {
    fn clone(&self) -> (r: Self)
        ensures
            opt_texts(r.active_files) == opt_texts(self.active_files),
            scope_views(r.directory_overrides@) == scope_views(self.directory_overrides@),
    {
        FileSourceConfig {
            active_files: clone_opt_strings(&self.active_files),
            directory_overrides: clone_scopes(&self.directory_overrides),
        }
    }
}

impl Default for FileSourceConfig {
    fn default() -> (r: Self)
        ensures
            r.active_files is None,
            r.directory_overrides@.len() == 0,
    {
        FileSourceConfig { active_files: None, directory_overrides: Vec::new() }
    }
}

#[derive(Debug, Clone)]
pub struct ShellSourceConfig {
    pub enabled: bool,
    pub include_patterns: Option<Vec<String>>,
}

impl Default for ShellSourceConfig {
    fn default() -> (r: Self)
        ensures
            r.enabled,
            r.include_patterns is None,
    {
        ShellSourceConfig { enabled: true, include_patterns: None }
    }
}

#[derive(Debug, Clone)]
pub struct RemoteSourceConfig {
    pub endpoint: Option<String>,
    pub auth_token: Option<String>,
    pub timeout_ms: Option<u64>,
    pub retry_count: Option<u32>,
}

impl Default for RemoteSourceConfig {
    fn default() -> (r: Self)
        ensures
            r.endpoint is None,
            r.auth_token is None,
            r.timeout_ms is None,
            r.retry_count is None,
    {
        RemoteSourceConfig { endpoint: None, auth_token: None, timeout_ms: None, retry_count: None }
    }
}

#[derive(Debug, Clone, Copy, PartialEq, Eq, Structural)]
pub struct MemorySourceConfig {}

impl Default for MemorySourceConfig {
    fn default() -> (r: Self) {
        MemorySourceConfig {  }
    }
}

/// What a source keeps when it is refreshed.
#[derive(Debug, Clone, Copy, PartialEq, Eq, Structural)]
pub struct SourceRefreshOptions {
    pub preserve_config: bool,
}

impl SourceRefreshOptions {
    pub fn preserve() -> (r: Self)
        ensures
            r.preserve_config,
    {
        SourceRefreshOptions { preserve_config: true }
    }

    pub fn reset() -> (r: Self)
        ensures
            !r.preserve_config,
    {
        SourceRefreshOptions { preserve_config: false }
    }
}

impl Default for SourceRefreshOptions {
    fn default() -> (r: Self)
        ensures
            !r.preserve_config,
    {
        SourceRefreshOptions { preserve_config: false }
    }
}

} // verus!
