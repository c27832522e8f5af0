//! The file sources of a workspace and the settings of which files are
//! active.

use vstd::prelude::*;
use std::sync::Arc;
use crate::selection::{
    insert_scope, is_plan, remove_scope, scope_views, set_scope, unset_scope, ActiveFileSelector,
    DirectoryScope, ScopeView, SelectionPlan,
};
use crate::source::config::{
    clone_opt_strings, clone_scopes, opt_texts, FileSourceConfig, SourceRefreshOptions,
};
use crate::source::traits::EnvSource;
use crate::text::{lemma_position_of_first, lemma_position_of_range, position_of, str_eq, texts};

verus! {

/// The paths under which sources are kept, in order.
pub open spec fn kept_paths<S>(sources: Seq<(String, Arc<S>)>) -> Seq<Seq<char>> {
    Seq::new(sources.len(), |i: int| sources[i].0@)
}

/// The sources that are kept, in order.
pub open spec fn kept_sources<S>(sources: Seq<(String, Arc<S>)>) -> Seq<Arc<S>> {
    Seq::new(sources.len(), |i: int| sources[i].1)
}

/// The file sources of a workspace, each under the canonical path of its
/// file, and which files are active. Making sources and asking the system
/// for canonical paths is left to the caller.
pub struct FileSourceManager<S: EnvSource> {
    sources: Vec<(String, Arc<S>)>,
    config: FileSourceConfig,
    selector: ActiveFileSelector,
}

impl<S: EnvSource> FileSourceManager<S> {
    /// The sources, each with the canonical path it is kept under.
    pub closed spec fn kept(&self) -> Seq<(String, Arc<S>)> {
        self.sources@
    }

    pub closed spec fn active_files(&self) -> Option<Seq<Seq<char>>> {
        opt_texts(self.config.active_files)
    }

    pub closed spec fn overrides(&self) -> Seq<ScopeView> {
        scope_views(self.config.directory_overrides@)
    }

    pub closed spec fn root(&self) -> Seq<char> {
        self.selector.root()
    }

    /// The directory scopes of the settings.
    pub closed spec fn directory_scopes(&self) -> Seq<DirectoryScope> {
        self.config.directory_overrides@
    }

    pub fn new(workspace_root: &str) -> (r: Self)
        ensures
            r.kept().len() == 0,
            r.active_files() is None,
            r.overrides().len() == 0,
            r.root() == workspace_root@,
    {
        FileSourceManager {
            sources: Vec::new(),
            config: FileSourceConfig::default(),
            selector: ActiveFileSelector::new(workspace_root),
        }
    }

    fn find(&self, canonical: &str) -> (r: Option<usize>)
        ensures
            match r {
                Some(i) => position_of(kept_paths(self.kept()), canonical@) == i && i
                    < self.kept().len(),
                None => position_of(kept_paths(self.kept()), canonical@) == -1,
            },
    {
        let ghost paths = kept_paths(self.kept());
        let mut i: usize = 0;
        while i < self.sources.len()
            invariant
                i <= self.sources.len(),
                paths == kept_paths(self.kept()),
                forall|j: int| 0 <= j < i ==> paths[j] != canonical@,
            decreases self.sources.len() - i,
        {
            if str_eq(self.sources[i].0.as_str(), canonical) {
                proof {
                    assert(paths[i as int] == canonical@);
                    lemma_position_of_first(paths, canonical@, i as int);
                }
                return Some(i);
            }
            i += 1;
        }
        assert(!paths.contains(canonical@));
        None
    }

    /// The source that is kept under a canonical path.
    pub fn get(&self, canonical: &str) -> (r: Option<Arc<S>>)
        ensures
            match r {
                Some(source) => position_of(kept_paths(self.kept()), canonical@) >= 0 && source
                    == self.kept()[position_of(kept_paths(self.kept()), canonical@)].1,
                None => position_of(kept_paths(self.kept()), canonical@) == -1,
            },
    {
        match self.find(canonical) {
            Some(i) => Some(self.sources[i].1.clone()),
            None => None,
        }
    }

    /// The source that is kept under a canonical path; where none is kept,
    /// the source that the caller has made for the file, if it could make
    /// one, which is then kept under the path.
    pub fn get_or_create(&mut self, canonical: &str, created: Option<Arc<S>>) -> (r: Option<Arc<S>>)
        ensures
            final(self).active_files() == old(self).active_files(),
            final(self).overrides() == old(self).overrides(),
            final(self).root() == old(self).root(),
            position_of(kept_paths(old(self).kept()), canonical@) >= 0 ==> final(self).kept()
                == old(self).kept() && r == Some(
                old(self).kept()[position_of(kept_paths(old(self).kept()), canonical@)].1,
            ),
            position_of(kept_paths(old(self).kept()), canonical@) < 0 ==> r == created
                && kept_paths(final(self).kept()) == (if created is Some {
                kept_paths(old(self).kept()).push(canonical@)
            } else {
                kept_paths(old(self).kept())
            }) && kept_sources(final(self).kept()) == (if created is Some {
                kept_sources(old(self).kept()).push(created->0)
            } else {
                kept_sources(old(self).kept())
            }),
    {
        proof {
            lemma_position_of_range(kept_paths(self.kept()), canonical@);
        }
        match self.find(canonical) {
            Some(i) => Some(self.sources[i].1.clone()),
            None => match created {
                Some(source) => {
                    self.register(canonical, source.clone());
                    Some(source)
                },
                None => None,
            },
        }
    }

    /// Keeps a source under the canonical path of its file. A source kept
    /// under the path before is replaced.
    pub fn register(&mut self, canonical: &str, source: Arc<S>)
        ensures
            final(self).active_files() == old(self).active_files(),
            final(self).overrides() == old(self).overrides(),
            final(self).root() == old(self).root(),
            kept_paths(final(self).kept()) == if position_of(
                kept_paths(old(self).kept()),
                canonical@,
            ) >= 0 {
                kept_paths(old(self).kept())
            } else {
                kept_paths(old(self).kept()).push(canonical@)
            },
            kept_sources(final(self).kept()) == if position_of(
                kept_paths(old(self).kept()),
                canonical@,
            ) >= 0 {
                kept_sources(old(self).kept()).update(
                    position_of(kept_paths(old(self).kept()), canonical@),
                    source,
                )
            } else {
                kept_sources(old(self).kept()).push(source)
            },
            kept_paths(final(self).kept()).contains(canonical@),
    {
        let ghost before = kept_paths(self.kept());
        let ghost held = kept_sources(self.kept());
        match self.find(canonical) {
            Some(i) => {
                self.sources.set(i, (canonical.to_owned(), source));
                proof {
                    lemma_position_of_range(before, canonical@);
                    assert(before[i as int] == canonical@);
                    assert(kept_paths(self.kept()) =~= before);
                    assert(kept_sources(self.kept()) =~= held.update(i as int, source));
                }
            },
            None => {
                self.sources.push((canonical.to_owned(), source));
                proof {
                    let after = kept_paths(self.kept());
                    assert(after =~= before.push(canonical@));
                    assert(after[before.len() as int] == canonical@);
                    assert(kept_sources(self.kept()) =~= held.push(source));
                }
            },
        }
    }

    /// Drops the source that is kept under a canonical path.
    pub fn unregister(&mut self, canonical: &str)
        ensures
            final(self).active_files() == old(self).active_files(),
            final(self).overrides() == old(self).overrides(),
            final(self).root() == old(self).root(),
            final(self).kept() == if position_of(kept_paths(old(self).kept()), canonical@) >= 0 {
                old(self).kept().remove(position_of(kept_paths(old(self).kept()), canonical@))
            } else {
                old(self).kept()
            },
    {
        match self.find(canonical) {
            Some(i) => {
                let _ = self.sources.remove(i);
            },
            None => {},
        }
    }

    pub fn set_active_files(&mut self, patterns: Option<Vec<String>>)
        ensures
            final(self).active_files() == opt_texts(patterns),
            final(self).overrides() == old(self).overrides(),
            final(self).kept() == old(self).kept(),
            final(self).root() == old(self).root(),
    {
        self.config.active_files = patterns;
    }

    pub fn get_active_files(&self) -> (r: Option<Vec<String>>)
        ensures
            opt_texts(r) == self.active_files(),
    {
        clone_opt_strings(&self.config.active_files)
    }

    pub fn set_directory_override(&mut self, dir: &str, patterns: &Vec<String>)
        ensures
            final(self).overrides() == set_scope(old(self).overrides(), dir@, texts(patterns@)),
            final(self).active_files() == old(self).active_files(),
            final(self).kept() == old(self).kept(),
            final(self).root() == old(self).root(),
    {
        insert_scope(&mut self.config.directory_overrides, dir, patterns);
    }

    pub fn clear_directory_override(&mut self, dir: &str)
        ensures
            final(self).overrides() == unset_scope(old(self).overrides(), dir@),
            final(self).active_files() == old(self).active_files(),
            final(self).kept() == old(self).kept(),
            final(self).root() == old(self).root(),
    {
        remove_scope(&mut self.config.directory_overrides, dir);
    }

    pub fn get_directory_overrides(&self) -> (r: Vec<DirectoryScope>)
        ensures
            scope_views(r@) == self.overrides(),
    {
        clone_scopes(&self.config.directory_overrides)
    }

    /// Decides what is to be selected for a file, as the selector does with
    /// the settings of this manager. The caller gives the canonical forms
    /// of the file and of the directories that have overrides.
    pub fn active_files_for_path(
        &self,
        file_path: &str,
        canonical_file: &str,
        canonical_scopes: &Vec<String>,
    ) -> (r: SelectionPlan)
        requires
            canonical_scopes@.len() == self.overrides().len(),
        ensures
            is_plan(
                r,
                self.root(),
                file_path@,
                canonical_file@,
                self.active_files(),
                self.directory_scopes(),
                texts(canonical_scopes@),
            ),
    {
        match &self.config.active_files {
            Some(patterns) => self.selector.plan_active_files(
                file_path,
                canonical_file,
                Some(patterns),
                &self.config.directory_overrides,
                canonical_scopes,
            ),
            None => self.selector.plan_active_files(
                file_path,
                canonical_file,
                None,
                &self.config.directory_overrides,
                canonical_scopes,
            ),
        }
    }

    pub fn selector(&self) -> (r: &ActiveFileSelector)
        ensures
            r.root() == self.root(),
    {
        &self.selector
    }

    pub fn config(&self) -> (r: FileSourceConfig)
        ensures
            opt_texts(r.active_files) == self.active_files(),
            scope_views(r.directory_overrides@) == self.overrides(),
    {
        self.config.clone()
    }

    pub fn apply_config(&mut self, config: FileSourceConfig)
        ensures
            final(self).active_files() == opt_texts(config.active_files),
            final(self).overrides() == scope_views(config.directory_overrides@),
            final(self).kept() == old(self).kept(),
            final(self).root() == old(self).root(),
    {
        self.config = config;
    }

    /// Makes every source forget what it has cached. The settings stay as
    /// they are, whatever the options say.
    pub fn refresh(&self, _options: &SourceRefreshOptions) {
        let mut i: usize = 0;
        while i < self.sources.len()
            invariant
                i <= self.sources.len(),
            decreases self.sources.len() - i,
        {
            self.sources[i].1.invalidate();
            i += 1;
        }
    }

    pub fn sources(&self) -> (r: Vec<Arc<S>>)
        ensures
            r@.len() == self.kept().len(),
            forall|i: int| 0 <= i < r@.len() ==> r@[i] == self.kept()[i].1,
    {
        let mut out: Vec<Arc<S>> = Vec::new();
        let mut i: usize = 0;
        while i < self.sources.len()
            invariant
                i <= self.sources.len(),
                out@.len() == i,
                forall|k: int| 0 <= k < i ==> out@[k] == self.sources@[k].1,
            decreases self.sources.len() - i,
        {
            out.push(self.sources[i].1.clone());
            i += 1;
        }
        out
    }

    pub fn is_registered(&self, canonical: &str) -> (r: bool)
        ensures
            r == kept_paths(self.kept()).contains(canonical@),
    {
        proof {
            lemma_position_of_range(kept_paths(self.kept()), canonical@);
        }
        self.find(canonical).is_some()
    }

    pub fn len(&self) -> (n: usize)
        ensures
            n == self.kept().len(),
    {
        self.sources.len()
    }

    pub fn is_empty(&self) -> (b: bool)
        ensures
            b == (self.kept().len() == 0),
    {
        self.sources.len() == 0
    }
}

} // verus!
