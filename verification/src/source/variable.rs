//! One variable as a source yields it.

use vstd::prelude::*;
use crate::text::{clone_opt_string, opt_text};

verus! {

/// Where a variable was read from.
#[derive(Debug)]
pub enum VariableSource {
    File { path: String, offset: usize },
    Shell,
    Memory,
    Remote { provider: String, path: Option<String> },
}

pub enum VariableSourceView {
    File { path: Seq<char>, offset: usize },
    Shell,
    Memory,
    Remote { provider: Seq<char>, path: Option<Seq<char>> },
}

impl View for VariableSource {
    type V = VariableSourceView;

    open spec fn view(&self) -> VariableSourceView {
        match self {
            VariableSource::File { path, offset } => VariableSourceView::File {
                path: path@,
                offset: *offset,
            },
            VariableSource::Shell => VariableSourceView::Shell,
            VariableSource::Memory => VariableSourceView::Memory,
            VariableSource::Remote { provider, path } => VariableSourceView::Remote {
                provider: provider@,
                path: opt_text(*path),
            },
        }
    }
}

impl Clone for VariableSource {
    fn clone(&self) -> (r: Self)
        ensures
            r@ == self@,
    {
        match self {
            VariableSource::File { path, offset } => VariableSource::File {
                path: path.clone(),
                offset: *offset,
            },
            VariableSource::Shell => VariableSource::Shell,
            VariableSource::Memory => VariableSource::Memory,
            VariableSource::Remote { provider, path } => VariableSource::Remote {
                provider: provider.clone(),
                path: clone_opt_string(path),
            },
        }
    }
}

impl PartialEq for VariableSource {
    fn eq(&self, other: &Self) -> (r: bool) {
        match (self, other) {
            (
                VariableSource::File { path: path_a, offset: offset_a },
                VariableSource::File { path: path_b, offset: offset_b },
            ) => *path_a == *path_b && *offset_a == *offset_b,
            (VariableSource::Shell, VariableSource::Shell) => true,
            (VariableSource::Memory, VariableSource::Memory) => true,
            (
                VariableSource::Remote { provider: provider_a, path: path_a },
                VariableSource::Remote { provider: provider_b, path: path_b },
            ) => {
                *provider_a == *provider_b && match (path_a, path_b) {
                    (Some(a), Some(b)) => *a == *b,
                    (None, None) => true,
                    _ => false,
                }
            },
            _ => false,
        }
    }
}

impl Eq for VariableSource {}

impl vstd::std_specs::cmp::PartialEqSpecImpl for VariableSource {
    open spec fn obeys_eq_spec() -> bool {
        true
    }

    open spec fn eq_spec(&self, other: &Self) -> bool {
        self@ == other@
    }
}

impl VariableSource {
    /// The file a variable came from, if it came from one.
    pub fn file_path(&self) -> (r: Option<&String>)
        ensures
            match *self {
                VariableSource::File { path, .. } => r == Some(&path),
                _ => r is None,
            },
    {
        match self {
            VariableSource::File { path, .. } => Some(path),
            _ => None,
        }
    }
}

/// A record from a source. It is not changed after it was parsed.
#[derive(Debug)]
pub struct ParsedVariable {
    pub key: String,
    pub raw_value: String,
    pub source: VariableSource,
    pub description: Option<String>,
    pub is_commented: bool,
}

pub struct ParsedVariableView {
    pub key: Seq<char>,
    pub raw_value: Seq<char>,
    pub source: VariableSourceView,
    pub description: Option<Seq<char>>,
    pub is_commented: bool,
}

impl View for ParsedVariable {
    type V = ParsedVariableView;

    open spec fn view(&self) -> ParsedVariableView {
        ParsedVariableView {
            key: self.key@,
            raw_value: self.raw_value@,
            source: self.source@,
            description: opt_text(self.description),
            is_commented: self.is_commented,
        }
    }
}

impl Clone for ParsedVariable {
    fn clone(&self) -> (r: Self)
        ensures
            r@ == self@,
    {
        ParsedVariable {
            key: self.key.clone(),
            raw_value: self.raw_value.clone(),
            source: self.source.clone(),
            description: clone_opt_string(&self.description),
            is_commented: self.is_commented,
        }
    }
}

impl ParsedVariable {
    /// A variable without description that is not commented out.
    pub fn simple(key: &str, value: &str, source: VariableSource) -> (r: Self)
        ensures
            r@ == (ParsedVariableView {
                key: key@,
                raw_value: value@,
                source: source@,
                description: None,
                is_commented: false,
            }),
    {
        ParsedVariable {
            key: key.to_owned(),
            raw_value: value.to_owned(),
            source,
            description: None,
            is_commented: false,
        }
    }
}

/// The views of a list of variables, in order.
pub open spec fn variable_views(v: Seq<ParsedVariable>) -> Seq<ParsedVariableView> {
    Seq::new(v.len(), |i: int| v[i]@)
}

/// Copies a list of variables.
pub fn clone_variables(v: &Vec<ParsedVariable>) -> (r: Vec<ParsedVariable>)
    ensures
        variable_views(r@) == variable_views(v@),
{
    let mut r: Vec<ParsedVariable> = Vec::new();
    let mut i: usize = 0;
    while i < v.len()
        invariant
            i <= v.len(),
            r@.len() == i,
            forall|j: int| 0 <= j < i ==> r@[j]@ == v@[j]@,
        decreases v.len() - i,
    {
        r.push(v[i].clone());
        i += 1;
    }
    assert(variable_views(r@) =~= variable_views(v@));
    r
}

} // verus!
