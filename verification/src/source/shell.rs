//! The process environment as a source.

use vstd::prelude::*;
use crate::error::SourceError;
use crate::source::traits::{Priority, SourceCapabilities, SourceId, SourceSnapshot, SourceType};
use crate::source::variable::{
    variable_views, ParsedVariable, ParsedVariableView, VariableSource, VariableSourceView,
};

verus! {

/// A name and its value.
pub type BindingView = (Seq<char>, Seq<char>);

pub open spec fn binding_views(v: Seq<(String, String)>) -> Seq<BindingView> {
    Seq::new(v.len(), |i: int| (v[i].0@, v[i].1@))
}

/// The variable that a binding of the environment stands for.
pub open spec fn shell_variable(b: BindingView) -> ParsedVariableView {
    ParsedVariableView {
        key: b.0,
        raw_value: b.1,
        source: VariableSourceView::Shell,
        description: None,
        is_commented: false,
    }
}

pub open spec fn shell_variables(env: Seq<BindingView>) -> Seq<ParsedVariableView> {
    Seq::new(env.len(), |i: int| shell_variable(env[i]))
}

/// The process environment as a source. It serves the environment as it
/// was when it was first loaded, until it is refreshed. Reading the
/// environment is left to the caller.
pub struct ShellSource {
    id: SourceId,
    cached: Option<Vec<(String, String)>>,
}

impl ShellSource {
    pub closed spec fn id_text(&self) -> Seq<char> {
        self.id@
    }

    /// The environment that the source has read, if it has.
    pub closed spec fn cached(&self) -> Option<Seq<BindingView>> {
        match self.cached {
            Some(env) => Some(binding_views(env@)),
            None => None,
        }
    }

    pub fn new() -> (r: Self)
        ensures
            r.id_text() == "shell:process"@,
            r.cached() is None,
    {
        ShellSource { id: SourceId::new("shell:process"), cached: None }
    }

    /// Forgets the environment that was read.
    pub fn refresh(&mut self)
        ensures
            final(self).id_text() == old(self).id_text(),
            final(self).cached() is None,
    {
        self.cached = None;
    }

    pub fn invalidate(&mut self)
        ensures
            final(self).id_text() == old(self).id_text(),
            final(self).cached() is None,
    {
        self.refresh();
    }

    pub fn id(&self) -> (r: &SourceId)
        ensures
            r@ == self.id_text(),
    {
        &self.id
    }

    pub fn source_type(&self) -> (r: SourceType)
        ensures
            r == SourceType::Shell,
    {
        SourceType::Shell
    }

    pub fn priority(&self) -> (r: Priority)
        ensures
            r.0 == 100,
    {
        Priority::SHELL()
    }

    pub fn capabilities(&self) -> (r: SourceCapabilities)
        ensures
            r.spec_bits() == 33,
    {
        let all = SourceCapabilities::READ().union(SourceCapabilities::CACHEABLE());
        assert(1u32 | 32u32 == 33u32) by (bit_vector);
        all
    }

    pub fn has_changed(&self) -> (r: bool)
        ensures
            !r,
    {
        false
    }

    /// Whether a load has to be given the environment.
    pub fn needs_env(&self) -> (r: bool)
        ensures
            r == (self.cached() is None),
    {
        self.cached.is_none()
    }

    /// The environment that is served: the one read before, or, where none
    /// was, the one given, which is then remembered.
    pub fn get_env(&mut self, environment: Vec<(String, String)>) -> (r: Vec<(String, String)>)
        ensures
            final(self).id_text() == old(self).id_text(),
            final(self).cached() == Some(
                match old(self).cached() {
                    Some(env) => env,
                    None => binding_views(environment@),
                },
            ),
            Some(binding_views(r@)) == final(self).cached(),
    {
        if self.cached.is_none() {
            self.cached = Some(environment);
        }
        match &self.cached {
            Some(env) => {
                let mut out: Vec<(String, String)> = Vec::new();
                let mut i: usize = 0;
                while i < env.len()
                    invariant
                        i <= env.len(),
                        out@.len() == i,
                        forall|k: int|
                            0 <= k < i ==> (#[trigger] out@[k]).0@ == env@[k].0@ && out@[k].1@
                                == env@[k].1@,
                    decreases env.len() - i,
                {
                    out.push((env[i].0.clone(), env[i].1.clone()));
                    i += 1;
                }
                assert(binding_views(out@) =~= binding_views(env@));
                out
            },
            None => Vec::new(),
        }
    }

    /// Loads the source: the environment that is served, without a version.
    /// `environment` is the environment as it is now; it is used where none
    /// was read before.
    pub fn load(&mut self, environment: Vec<(String, String)>) -> (r: Result<
        SourceSnapshot,
        SourceError,
    >)
        ensures
            final(self).id_text() == old(self).id_text(),
            final(self).cached() == Some(
                match old(self).cached() {
                    Some(env) => env,
                    None => binding_views(environment@),
                },
            ),
            match r {
                Ok(s) => s.source_id@ == old(self).id_text() && s.version is None && variable_views(
                    s.variables@,
                ) == shell_variables(final(self).cached()->0),
                Err(_) => false,
            },
    {
        let env = self.get_env(environment);
        let mut vars: Vec<ParsedVariable> = Vec::new();
        let mut i: usize = 0;
        while i < env.len()
            invariant
                i <= env.len(),
                vars@.len() == i,
                forall|k: int|
                    0 <= k < i ==> (#[trigger] vars@[k])@ == shell_variable(binding_views(env@)[k]),
            decreases env.len() - i,
        {
            vars.push(
                ParsedVariable {
                    key: env[i].0.clone(),
                    raw_value: env[i].1.clone(),
                    source: VariableSource::Shell,
                    description: None,
                    is_commented: false,
                },
            );
            i += 1;
        }
        assert(variable_views(vars@) =~= shell_variables(binding_views(env@)));
        Ok(SourceSnapshot::new(self.id.clone(), vars, None))
    }
}

impl Default for ShellSource {
    fn default() -> (r: Self)
        ensures
            r.id_text() == "shell:process"@,
            r.cached() is None,
    {
        ShellSource::new()
    }
}

} // verus!
