//! A dotenv file as a source: what it has parsed, under which version, and
//! when it has to read the file again.

use vstd::prelude::*;
use crate::error::SourceError;
use crate::source::dotenv::{
    dotenv_pairs, is_key_missing, parse_pairs, remove_from_text, set_in_text, text_with_value,
    text_without_key, PairView,
};
use crate::source::traits::{Priority, SourceCapabilities, SourceId, SourceSnapshot, SourceType};
use crate::source::variable::{
    clone_variables, variable_views, ParsedVariable, ParsedVariableView, VariableSource,
    VariableSourceView,
};
use crate::text::{concat, lemma_position_of_range, position_of};

verus! {

/// The variable that a pair of the file at `path` stands for.
pub open spec fn pair_variable(path: Seq<char>, pair: PairView) -> ParsedVariableView {
    ParsedVariableView {
        key: pair.0,
        raw_value: pair.1,
        source: VariableSourceView::File {
            path,
            offset: match pair.2 {
                Some(offset) => offset,
                None => 0,
            },
        },
        description: None,
        is_commented: pair.3,
    }
}

/// The variables of a dotenv text that was read from `path`.
pub open spec fn file_variables(path: Seq<char>, content: Seq<char>) -> Seq<ParsedVariableView> {
    Seq::new(
        dotenv_pairs(content).len(),
        |i: int| pair_variable(path, dotenv_pairs(content)[i]),
    )
}

/// What a file source remembers.
pub struct FileState {
    pub last_modified: Option<u128>,
    pub cached: Option<Seq<ParsedVariableView>>,
    pub version: Option<u64>,
    pub next_version: u64,
}

/// Whether the file has to be taken as changed: nothing is remembered of
/// its time of modification, the time cannot be had, or it is another one.
pub open spec fn seems_modified(last: Option<u128>, current: Option<u128>) -> bool {
    last is None || current is None || current != last
}

/// Whether a load served the variables `vars` under `version`.
pub open spec fn is_served(
    r: Result<SourceSnapshot, SourceError>,
    id: Seq<char>,
    vars: Seq<ParsedVariableView>,
    version: Option<u64>,
) -> bool {
    match r {
        Ok(s) => s.source_id@ == id && variable_views(s.variables@) == vars && s.version == version,
        Err(_) => false,
    }
}

/// Whether a load failed because the file at `path` could not be read.
pub open spec fn is_read_failure(
    r: Result<SourceSnapshot, SourceError>,
    path: Seq<char>,
    reason: Seq<char>,
) -> bool {
    match r {
        Err(SourceError::SourceRead { source_name, reason: why }) => source_name@ == path && why@
            == reason,
        _ => false,
    }
}

/// A dotenv file as a source. Reading the file and its time of modification
/// is left to the caller, who hands in what was read.
pub struct FileSource {
    path: String,
    id: SourceId,
    last_modified: Option<u128>,
    cached_vars: Option<Vec<ParsedVariable>>,
    version: Option<u64>,
    next_version: u64,
}

impl FileSource {
    pub closed spec fn path_text(&self) -> Seq<char> {
        self.path@
    }

    pub closed spec fn id_text(&self) -> Seq<char> {
        self.id@
    }

    /// What the source remembers.
    pub closed spec fn state(&self) -> FileState {
        FileState {
            last_modified: self.last_modified,
            cached: match self.cached_vars {
                Some(vars) => Some(variable_views(vars@)),
                None => None,
            },
            version: self.version,
            next_version: self.next_version,
        }
    }

    /// The source is named after its path, and the version it was served
    /// under last is below the next one.
    pub closed spec fn wf(&self) -> bool {
        &&& self.id@ == "file:"@ + self.path@
        &&& self.version is Some ==> self.version->0 < self.next_version
    }

    /// The version served last is below the next one.
    pub proof fn lemma_wf_versions(&self)
        requires
            self.wf(),
        ensures
            self.id_text() == "file:"@ + self.path_text(),
            self.state().version is Some ==> self.state().version->0 < self.state().next_version,
    {
    }

    /// A source for the file at `path`, which the caller has found to exist
    /// or not.
    pub fn new(path: &str, exists: bool) -> (r: Result<Self, String>)
        ensures
            match r {
                Ok(source) => exists && source.wf() && source.path_text() == path@ && source.state()
                    == (FileState {
                    last_modified: None,
                    cached: None,
                    version: None,
                    next_version: 1,
                }),
                Err(message) => !exists && message@ == "File not found: "@ + path@,
            },
    {
        if !exists {
            return Err(concat("File not found: ", path));
        }
        Ok(
            FileSource {
                path: path.to_owned(),
                id: SourceId::new(concat("file:", path).as_str()),
                last_modified: None,
                cached_vars: None,
                version: None,
                next_version: 1,
            },
        )
    }

    pub fn path(&self) -> (r: &str)
        ensures
            r@ == self.path_text(),
    {
        self.path.as_str()
    }

    pub fn get_path(&self) -> (r: &str)
        ensures
            r@ == self.path_text(),
    {
        self.path.as_str()
    }

    pub fn id(&self) -> (r: &SourceId)
        ensures
            r@ == self.id_text(),
    {
        &self.id
    }

    pub fn source_type(&self) -> (r: SourceType)
        ensures
            r == SourceType::File,
    {
        SourceType::File
    }

    pub fn priority(&self) -> (r: Priority)
        ensures
            r.0 == 50,
    {
        Priority::FILE()
    }

    pub fn capabilities(&self) -> (r: SourceCapabilities)
        ensures
            r.spec_bits() == 37,
    {
        let rw = SourceCapabilities::READ().union(SourceCapabilities::WATCH());
        let all = rw.union(SourceCapabilities::CACHEABLE());
        assert(1u32 | 4u32 | 32u32 == 37u32) by (bit_vector);
        all
    }

    /// Whether the file has to be taken as changed, given its time of
    /// modification now.
    pub fn check_modified(&self, current: Option<u128>) -> (r: bool)
        ensures
            r == seems_modified(self.state().last_modified, current),
    {
        match self.last_modified {
            None => true,
            Some(last) => match current {
                Some(now) => now != last,
                None => true,
            },
        }
    }

    pub fn has_changed(&self, current: Option<u128>) -> (r: bool)
        ensures
            r == seems_modified(self.state().last_modified, current),
    {
        self.check_modified(current)
    }

    /// Whether a load has to read the file.
    pub fn needs_read(&self, current: Option<u128>) -> (r: bool)
        ensures
            r == (self.state().cached is None || seems_modified(
                self.state().last_modified,
                current,
            )),
    {
        match &self.cached_vars {
            Some(_) => self.check_modified(current),
            None => true,
        }
    }

    /// The variables of a dotenv text that was read from this file.
    pub fn parse_content(&self, content: &str) -> (r: Vec<ParsedVariable>)
        ensures
            variable_views(r@) == file_variables(self.path_text(), content@),
    {
        let pairs = parse_pairs(content);
        let mut variables: Vec<ParsedVariable> = Vec::new();
        let mut i: usize = 0;
        while i < pairs.len()
            invariant
                i <= pairs.len(),
                crate::source::dotenv::pair_views(pairs@) == dotenv_pairs(content@),
                variables@.len() == i,
                forall|k: int|
                    0 <= k < i ==> (#[trigger] variables@[k])@ == pair_variable(
                        self.path@,
                        dotenv_pairs(content@)[k],
                    ),
            decreases pairs.len() - i,
        {
            let pair = &pairs[i];
            proof {
                assert(crate::source::dotenv::pair_views(pairs@)[i as int] == (
                    pair.key@,
                    pair.value@,
                    pair.key_offset,
                    pair.is_comment,
                ));
            }
            let offset: usize = match pair.key_offset {
                Some(offset) => offset,
                None => 0,
            };
            variables.push(
                ParsedVariable {
                    key: pair.key.clone(),
                    raw_value: pair.value.clone(),
                    source: VariableSource::File { path: self.path.clone(), offset },
                    description: None,
                    is_commented: pair.is_comment,
                },
            );
            i += 1;
        }
        assert(variable_views(variables@) =~= file_variables(self.path@, content@));
        variables
    }

    /// Loads the source, given the file's time of modification and what
    /// reading the file gave. What was parsed before is served again under
    /// its version while the file seems unchanged. Else the next version is
    /// taken, whether or not the file could be read; a file that was read is
    /// parsed and served under that version.
    pub fn load(&mut self, current: Option<u128>, read: Result<&str, &str>) -> (r: Result<
        SourceSnapshot,
        SourceError,
    >)
        requires
            old(self).state().next_version < u64::MAX,
        ensures
            old(self).wf() ==> final(self).wf(),
            final(self).path_text() == old(self).path_text(),
            final(self).id_text() == old(self).id_text(),
            old(self).state().cached is Some && !seems_modified(
                old(self).state().last_modified,
                current,
            ) ==> final(self).state() == old(self).state() && is_served(
                r,
                old(self).id_text(),
                old(self).state().cached->0,
                old(self).state().version,
            ),
            old(self).state().cached is None || seems_modified(
                old(self).state().last_modified,
                current,
            ) ==> match read {
                Ok(content) => final(self).state() == (FileState {
                    last_modified: if current is Some {
                        current
                    } else {
                        old(self).state().last_modified
                    },
                    cached: Some(file_variables(old(self).path_text(), content@)),
                    version: Some(old(self).state().next_version),
                    next_version: (old(self).state().next_version + 1) as u64,
                }) && is_served(
                    r,
                    old(self).id_text(),
                    file_variables(old(self).path_text(), content@),
                    Some(old(self).state().next_version),
                ),
                Err(reason) => final(self).state() == (FileState {
                    next_version: (old(self).state().next_version + 1) as u64,
                    ..old(self).state()
                }) && is_read_failure(r, old(self).path_text(), reason@),
            },
    {
        if !self.needs_read(current) {
            match &self.cached_vars {
                Some(vars) => {
                    return Ok(
                        SourceSnapshot::new(self.id.clone(), clone_variables(vars), self.version),
                    );
                },
                None => {},
            }
        }
        let version = self.next_version;
        self.next_version = self.next_version + 1;
        let content = match read {
            Ok(content) => content,
            Err(reason) => {
                return Err(
                    SourceError::SourceRead {
                        source_name: self.path.clone(),
                        reason: reason.to_owned(),
                    },
                );
            },
        };
        match current {
            Some(now) => {
                self.last_modified = Some(now);
            },
            None => {},
        }
        let vars = self.parse_content(content);
        let served = clone_variables(&vars);
        self.cached_vars = Some(vars);
        self.version = Some(version);
        Ok(SourceSnapshot::new(self.id.clone(), served, Some(version)))
    }

    /// Forgets what was parsed, then loads. The reason of a failure is
    /// returned.
    pub fn reload(&mut self, current: Option<u128>, read: Result<&str, &str>) -> (r: Result<
        (),
        String,
    >)
        requires
            old(self).state().next_version < u64::MAX,
        ensures
            old(self).wf() ==> final(self).wf(),
            final(self).path_text() == old(self).path_text(),
            final(self).id_text() == old(self).id_text(),
            match read {
                Ok(content) => r is Ok && final(self).state() == (FileState {
                    last_modified: if current is Some {
                        current
                    } else {
                        old(self).state().last_modified
                    },
                    cached: Some(file_variables(old(self).path_text(), content@)),
                    version: Some(old(self).state().next_version),
                    next_version: (old(self).state().next_version + 1) as u64,
                }),
                Err(reason) => final(self).state() == (FileState {
                    cached: None,
                    next_version: (old(self).state().next_version + 1) as u64,
                    ..old(self).state()
                }) && r.is_err() && r->Err_0@ == reason@,
            },
    {
        self.cached_vars = None;
        match self.load(current, read) {
            Ok(_) => Ok(()),
            Err(e) => match e {
                SourceError::SourceRead { reason, .. } => Err(reason),
                _ => Err(String::new()),
            },
        }
    }

    /// The text of the file with `key` set to `value`, given the text it
    /// has now. The source itself stays as it is until `mark_written` is
    /// called for the text that was written.
    pub fn set_variable(&self, key: &str, value: &str, content: &str) -> (r: Result<
        String,
        SourceError,
    >)
        ensures
            match r {
                Ok(text) => text_with_value(content@, key@, value@) == Some(text@),
                Err(e) => text_with_value(content@, key@, value@) is None && is_key_missing(
                    e,
                    "set_variable"@,
                    key@,
                ),
            },
    {
        set_in_text(content, key, value)
    }

    /// The variable with the key `key` that the text of the file holds, and
    /// the text without the lines of the key. A key that the text does not
    /// hold is refused. As a load does, this remembers the file's time of
    /// modification.
    pub fn remove_variable(&mut self, key: &str, content: &str, current: Option<u128>) -> (r:
        Result<(ParsedVariable, String), SourceError>)
        ensures
            old(self).wf() ==> final(self).wf(),
            final(self).path_text() == old(self).path_text(),
            final(self).id_text() == old(self).id_text(),
            final(self).state() == (FileState {
                last_modified: if current is Some {
                    current
                } else {
                    old(self).state().last_modified
                },
                ..old(self).state()
            }),
            match r {
                Ok((removed, text)) => {
                    let vars = file_variables(old(self).path_text(), content@);
                    let keys = crate::resolution::interpolate::variable_keys(vars);
                    &&& keys.contains(key@)
                    &&& removed@ == vars[position_of(keys, key@)]
                    &&& text@ == text_without_key(content@, key@)
                },
                Err(e) => !crate::resolution::interpolate::variable_keys(
                    file_variables(old(self).path_text(), content@),
                ).contains(key@) && is_key_missing(e, "remove_variable"@, key@),
            },
    {
        match current {
            Some(now) => {
                self.last_modified = Some(now);
            },
            None => {},
        }
        let vars = self.parse_content(content);
        proof {
            lemma_position_of_range(
                crate::resolution::interpolate::variable_keys(variable_views(vars@)),
                key@,
            );
        }
        match crate::resolution::interpolate::find_variable(&vars, key) {
            Some(i) => Ok((vars[i].clone(), remove_from_text(content, key))),
            None => Err(
                SourceError::UnsupportedOperation {
                    operation: "remove_variable".to_owned(),
                    source_type: "FileSource".to_owned(),
                    reason: concat(concat("Key '", key).as_str(), "' not found in file"),
                },
            ),
        }
    }

    /// Records that an edited text was written to the file: what was parsed
    /// is forgotten and a version is skipped.
    pub fn mark_written(&mut self)
        requires
            old(self).state().next_version < u64::MAX,
        ensures
            old(self).wf() ==> final(self).wf(),
            final(self).path_text() == old(self).path_text(),
            final(self).id_text() == old(self).id_text(),
            final(self).state() == (FileState {
                cached: None,
                next_version: (old(self).state().next_version + 1) as u64,
                ..old(self).state()
            }),
    {
        self.cached_vars = None;
        self.next_version = self.next_version + 1;
    }

    /// Takes the next version.
    pub fn increment_version(&mut self) -> (v: u64)
        requires
            old(self).state().next_version < u64::MAX,
        ensures
            v == old(self).state().next_version,
            old(self).wf() ==> final(self).wf(),
            final(self).path_text() == old(self).path_text(),
            final(self).id_text() == old(self).id_text(),
            final(self).state() == (FileState {
                next_version: (old(self).state().next_version + 1) as u64,
                ..old(self).state()
            }),
    {
        let v = self.next_version;
        self.next_version = self.next_version + 1;
        v
    }

    /// The version under which the source was served last.
    pub fn get_version(&self) -> (v: Option<u64>)
        ensures
            v == self.state().version,
    {
        self.version
    }

    /// Forgets what was parsed and when the file was modified.
    pub fn invalidate(&mut self)
        ensures
            old(self).wf() ==> final(self).wf(),
            final(self).path_text() == old(self).path_text(),
            final(self).id_text() == old(self).id_text(),
            final(self).state() == (FileState {
                last_modified: None,
                cached: None,
                ..old(self).state()
            }),
    {
        self.cached_vars = None;
        self.last_modified = None;
    }
}

/// Versions rise: where a source has served a version and a later load
/// reads the file again, that load serves a higher version.
pub proof fn lemma_file_versions_rise(before: FileSource, after: FileSource)
    requires
        before.wf(),
        before.state().version is Some,
        after.state().version is Some,
        after.state().version->0 >= before.state().next_version,
    ensures
        after.state().version->0 > before.state().version->0,
{
    before.lemma_wf_versions();
}

} // verus!
