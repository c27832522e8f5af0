//! Selects the dotenv files that are active for a file.

use vstd::prelude::*;

use crate::paths::{
    join_path, path_join, path_starts_with, sort_paths, sorted_paths, starts_with_path,
};
use crate::text::{
    clone_strings, concat, contains_text, lemma_position_of_first, position_of, starts_with,
    str_eq, strip_prefix, texts,
};

verus! {

/// The patterns of the files that are active below one directory.
#[derive(Debug)]
pub struct DirectoryScope {
    pub directory: String,
    pub patterns: Vec<String>,
}

/// A directory and its patterns.
pub type ScopeView = (Seq<char>, Seq<Seq<char>>);

impl View for DirectoryScope {
    type V = ScopeView;

    open spec fn view(&self) -> ScopeView {
        (self.directory@, texts(self.patterns@))
    }
}

impl Clone for DirectoryScope {
    fn clone(&self) -> (r: Self)
        ensures
            r@ == self@,
    {
        DirectoryScope { directory: self.directory.clone(), patterns: clone_strings(&self.patterns) }
    }
}

pub open spec fn scope_views(v: Seq<DirectoryScope>) -> Seq<ScopeView> {
    Seq::new(v.len(), |i: int| v[i]@)
}

/// The directories of a list of scopes, in order.
pub open spec fn scope_directories(scopes: Seq<ScopeView>) -> Seq<Seq<char>> {
    Seq::new(scopes.len(), |i: int| scopes[i].0)
}

/// The first place at which a directory has a scope, or -1.
pub open spec fn scope_position(scopes: Seq<ScopeView>, directory: Seq<char>) -> int {
    position_of(scope_directories(scopes), directory)
}

/// The scopes after the patterns of `directory` were set: an old scope of
/// the directory is replaced where it stands, a new one goes to the end.
pub open spec fn set_scope(
    scopes: Seq<ScopeView>,
    directory: Seq<char>,
    patterns: Seq<Seq<char>>,
) -> Seq<ScopeView> {
    if scope_position(scopes, directory) >= 0 {
        scopes.update(scope_position(scopes, directory), (directory, patterns))
    } else {
        scopes.push((directory, patterns))
    }
}

/// The scopes without the first scope of `directory`.
pub open spec fn unset_scope(scopes: Seq<ScopeView>, directory: Seq<char>) -> Seq<ScopeView> {
    if scope_position(scopes, directory) >= 0 {
        scopes.remove(scope_position(scopes, directory))
    } else {
        scopes
    }
}

/// The first place at which `directory` has a scope.
pub fn find_scope(scopes: &Vec<DirectoryScope>, directory: &str) -> (r: Option<usize>)
    ensures
        match r {
            Some(i) => scope_position(scope_views(scopes@), directory@) == i && i < scopes.len(),
            None => scope_position(scope_views(scopes@), directory@) == -1,
        },
{
    let ghost dirs = scope_directories(scope_views(scopes@));
    let mut i: usize = 0;
    while i < scopes.len()
        invariant
            i <= scopes.len(),
            dirs == scope_directories(scope_views(scopes@)),
            forall|j: int| 0 <= j < i ==> dirs[j] != directory@,
        decreases scopes.len() - i,
    {
        if str_eq(scopes[i].directory.as_str(), directory) {
            proof {
                assert(dirs[i as int] == directory@);
                lemma_position_of_first(dirs, directory@, i as int);
            }
            return Some(i);
        }
        i += 1;
    }
    assert(!dirs.contains(directory@));
    None
}

/// Sets the patterns of `directory`.
pub fn insert_scope(scopes: &mut Vec<DirectoryScope>, directory: &str, patterns: &Vec<String>)
    ensures
        scope_views(final(scopes)@) == set_scope(
            scope_views(old(scopes)@),
            directory@,
            texts(patterns@),
        ),
{
    let scope = DirectoryScope { directory: directory.to_owned(), patterns: clone_strings(patterns) };
    match find_scope(scopes, directory) {
        Some(i) => {
            scopes.set(i, scope);
        },
        None => {
            scopes.push(scope);
        },
    }
    assert(scope_views(scopes@) =~= set_scope(
        scope_views(old(scopes)@),
        directory@,
        texts(patterns@),
    ));
}

/// Drops the patterns of `directory`, if it has any.
pub fn remove_scope(scopes: &mut Vec<DirectoryScope>, directory: &str)
    ensures
        scope_views(final(scopes)@) == unset_scope(scope_views(old(scopes)@), directory@),
{
    match find_scope(scopes, directory) {
        Some(i) => {
            let _ = scopes.remove(i);
        },
        None => {},
    }
    assert(scope_views(scopes@) =~= unset_scope(scope_views(old(scopes)@), directory@));
}

/// The names under which a dotenv file is looked for where none is named,
/// the preferred name first.
pub open spec fn priority_names() -> Seq<Seq<char>> {
    seq![
        ".env.local"@,
        ".env.development"@,
        ".env.dev"@,
        ".env"@,
        ".env.test"@,
        ".env.staging"@,
        ".env.production"@,
        ".env.prod"@,
    ]
}

/// The names under which a dotenv file is looked for, the preferred first.
pub fn auto_discovery_priority() -> (r: Vec<String>)
    ensures
        texts(r@) == priority_names(),
{
    let mut names: Vec<String> = Vec::new();
    names.push(".env.local".to_owned());
    names.push(".env.development".to_owned());
    names.push(".env.dev".to_owned());
    names.push(".env".to_owned());
    names.push(".env.test".to_owned());
    names.push(".env.staging".to_owned());
    names.push(".env.production".to_owned());
    names.push(".env.prod".to_owned());
    assert(texts(names@) =~= priority_names());
    names
}

/// The first of the names from place `from` on under which a file exists in
/// `dir`, as a path.
pub open spec fn first_existing(
    dir: Seq<char>,
    names: Seq<Seq<char>>,
    existing: Seq<Seq<char>>,
    from: int,
) -> Option<Seq<char>>
    decreases names.len() - from,
{
    if from < 0 || from >= names.len() {
        None
    } else if existing.contains(path_join(dir, names[from])) {
        Some(path_join(dir, names[from]))
    } else {
        first_existing(dir, names, existing, from + 1)
    }
}

/// A sequence of the one value, or of none.
pub open spec fn one_or_none(o: Option<Seq<char>>) -> Seq<Seq<char>> {
    match o {
        Some(s) => seq![s],
        None => Seq::empty(),
    }
}

/// The paths of the files `names` under `dir`.
pub open spec fn names_under(dir: Seq<char>, names: Seq<Seq<char>>) -> Seq<Seq<char>> {
    Seq::new(names.len(), |k: int| path_join(dir, names[k]))
}

/// The files that are found where none is named: in a monorepo, which is a
/// workspace of more than one package or a package that is not the root, the
/// preferred file of the workspace root; then, always, the preferred file
/// of the package root.
pub open spec fn discovered(
    workspace_root: Seq<char>,
    package_root: Seq<char>,
    packages: nat,
    existing: Seq<Seq<char>>,
) -> Seq<Seq<char>> {
    (if packages > 1 || package_root != workspace_root {
        one_or_none(first_existing(workspace_root, priority_names(), existing, 0))
    } else {
        Seq::empty()
    }) + one_or_none(first_existing(package_root, priority_names(), existing, 0))
}

/// The pattern that is handed to the glob: a pattern that begins with `/`
/// stands as it is, one that begins with `./` loses that, any other is put
/// behind the base directory.
pub open spec fn glob_pattern_of(base_dir: Seq<char>, pattern: Seq<char>) -> Seq<char> {
    if "./"@.is_prefix_of(pattern) {
        pattern.skip(2)
    } else if "/"@.is_prefix_of(pattern) {
        pattern
    } else {
        base_dir + "/"@ + pattern
    }
}

/// A path that a glob has matched, and whether it is a regular file.
#[derive(Debug)]
pub struct GlobMatch {
    pub path: String,
    pub is_file: bool,
}

/// The paths of the matches that are files, in order.
pub open spec fn matched_files(matches: Seq<GlobMatch>) -> Seq<Seq<char>>
    decreases matches.len(),
{
    if matches.len() == 0 {
        Seq::empty()
    } else if matches.last().is_file {
        matched_files(matches.drop_last()).push(matches.last().path@)
    } else {
        matched_files(matches.drop_last())
    }
}

/// The files among what several patterns have matched: for each pattern in
/// turn the matches that are files, in the order of the matches.
pub open spec fn found_files(found: Seq<Vec<GlobMatch>>) -> Seq<Seq<char>>
    decreases found.len(),
{
    if found.len() == 0 {
        Seq::empty()
    } else {
        found_files(found.drop_last()) + matched_files(found.last()@)
    }
}

/// The paths of the matches that are files, in order.
pub fn files_among(matches: &Vec<GlobMatch>) -> (r: Vec<String>)
    ensures
        texts(r@) == matched_files(matches@),
{
    let mut files: Vec<String> = Vec::new();
    let mut k: usize = 0;
    proof {
        assert(matches@.take(0) =~= Seq::<GlobMatch>::empty());
        assert(texts(files@) =~= matched_files(matches@.take(0)));
    }
    while k < matches.len()
        invariant
            k <= matches.len(),
            texts(files@) == matched_files(matches@.take(k as int)),
        decreases matches.len() - k,
    {
        proof {
            assert(matches@.take(k + 1).drop_last() =~= matches@.take(k as int));
            assert(matches@.take(k + 1).last() == matches@[k as int]);
        }
        if matches[k].is_file {
            let ghost old_files = texts(files@);
            files.push(matches[k].path.clone());
            assert(texts(files@) =~= old_files.push(matches@[k as int].path@));
        }
        k += 1;
    }
    proof {
        assert(matches@.take(matches.len() as int) =~= matches@);
    }
    files
}

/// The files among what several patterns have matched.
pub fn all_files_among(found: &Vec<Vec<GlobMatch>>) -> (r: Vec<String>)
    ensures
        texts(r@) == found_files(found@),
{
    let mut out: Vec<String> = Vec::new();
    let mut i: usize = 0;
    proof {
        assert(found@.take(0) =~= Seq::<Vec<GlobMatch>>::empty());
        assert(texts(out@) =~= Seq::<Seq<char>>::empty());
    }
    while i < found.len()
        invariant
            i <= found.len(),
            texts(out@) == found_files(found@.take(i as int)),
        decreases found.len() - i,
    {
        let ghost before = texts(out@);
        let files = files_among(&found[i]);
        let ghost part = texts(files@);
        proof {
            assert(found@.take(i + 1).drop_last() =~= found@.take(i as int));
            assert(found@.take(i + 1).last() == found@[i as int]);
            assert(before + part.take(0) =~= before);
        }
        let mut k: usize = 0;
        while k < files.len()
            invariant
                k <= files.len(),
                part == texts(files@),
                texts(out@) == before + part.take(k as int),
            decreases files.len() - k,
        {
            let ghost so_far = texts(out@);
            out.push(files[k].clone());
            proof {
                assert(texts(out@) =~= so_far.push(part[k as int]));
                assert(part.take(k + 1) =~= part.take(k as int).push(part[k as int]));
                assert(texts(out@) =~= before + part.take(k + 1));
            }
            k += 1;
        }
        proof {
            assert(part.take(files.len() as int) =~= part);
        }
        i += 1;
    }
    proof {
        assert(found@.take(found.len() as int) =~= found@);
    }
    out
}

/// What is to be selected: the files that are found without naming any,
/// for the package of a path, or the files that patterns match below a
/// directory.
#[derive(Debug)]
pub enum FileSelection {
    AutoDiscover { for_path: String },
    Patterns { base_dir: String, patterns: Vec<String> },
}

/// A selection as plain values.
pub enum FileSelectionView {
    AutoDiscover { for_path: Seq<char> },
    Patterns { base_dir: Seq<char>, patterns: Seq<Seq<char>> },
}

impl View for FileSelection {
    type V = FileSelectionView;

    open spec fn view(&self) -> FileSelectionView {
        match self {
            FileSelection::AutoDiscover { for_path } => FileSelectionView::AutoDiscover {
                for_path: for_path@,
            },
            FileSelection::Patterns { base_dir, patterns } => FileSelectionView::Patterns {
                base_dir: base_dir@,
                patterns: texts(patterns@),
            },
        }
    }
}

/// The general selection and, where a directory scope applies, the scoped
/// one.
#[derive(Debug)]
pub struct SelectionPlan {
    pub general: FileSelection,
    pub scoped: Option<FileSelection>,
}

/// The selection that patterns ask for: none named means discovery.
pub open spec fn selection_of(
    for_path: Seq<char>,
    base_dir: Seq<char>,
    patterns: Seq<Seq<char>>,
) -> FileSelectionView {
    if patterns.len() == 0 {
        FileSelectionView::AutoDiscover { for_path }
    } else {
        FileSelectionView::Patterns { base_dir, patterns }
    }
}

/// The number of bytes of a text.
pub open spec fn byte_len(s: Seq<char>) -> nat {
    vstd::utf8::encode_utf8(s).len()
}

/// Whether the scope at place `i` applies to the file: its directory, in
/// canonical form, begins the file's canonical path.
pub open spec fn scope_applies(canonical_scopes: Seq<Seq<char>>, canonical_file: Seq<char>, i: int) -> bool {
    0 <= i < canonical_scopes.len() && path_starts_with(canonical_file, canonical_scopes[i])
}

/// Whether the scope at place `i` is the one that applies to the file most
/// deeply: no scope that applies has a longer directory, and none of the
/// same length stands before it.
pub open spec fn is_deepest_scope(
    canonical_scopes: Seq<Seq<char>>,
    canonical_file: Seq<char>,
    i: int,
) -> bool {
    &&& scope_applies(canonical_scopes, canonical_file, i)
    &&& forall|j: int|
        #![trigger canonical_scopes[j]]
        scope_applies(canonical_scopes, canonical_file, j) ==> byte_len(canonical_scopes[j])
            < byte_len(canonical_scopes[i]) || (byte_len(canonical_scopes[j]) == byte_len(
            canonical_scopes[i],
        ) && i <= j)
}

/// What the selector has been told by the caller, who has looked at the
/// disk for one selection.
#[derive(Debug)]
pub enum SelectionFacts {
    /// The path has no package.
    NoContext,
    /// The package of the path, the packages of the workspace, and which of
    /// the files that discovery looks for exist.
    Discovered { package_root: String, packages: usize, existing: Vec<String> },
    /// What each pattern has matched; `None` for a pattern that is no glob.
    Globbed { found: Vec<Option<Vec<GlobMatch>>> },
}

/// Selects the dotenv files that apply to a file.
#[derive(Debug)]
pub struct ActiveFileSelector {
    workspace_root: String,
}

impl ActiveFileSelector {
    pub closed spec fn root(&self) -> Seq<char> {
        self.workspace_root@
    }

    pub fn new(workspace_root: &str) -> (r: Self)
        ensures
            r.root() == workspace_root@,
    {
        ActiveFileSelector { workspace_root: workspace_root.to_owned() }
    }

    /// The pattern that is handed to the glob for `pattern` below
    /// `base_dir`.
    pub fn glob_pattern(base_dir: &str, pattern: &str) -> (r: String)
        ensures
            r@ == glob_pattern_of(base_dir@, pattern@),
    {
        proof {
            reveal_strlit("./");
        }
        match strip_prefix(pattern, "./") {
            Some(rest) => rest,
            None => {
                if starts_with(pattern, "/") {
                    pattern.to_owned()
                } else {
                    concat(concat(base_dir, "/").as_str(), pattern)
                }
            },
        }
    }

    /// The files that the patterns select, given what each pattern has
    /// matched: for each pattern in turn the matches that are files, in the
    /// order of paths. A pattern that is no glob, or for which nothing is
    /// told, selects nothing.
    pub fn resolve_patterns(
        &self,
        patterns: &Vec<String>,
        found: &Vec<Option<Vec<GlobMatch>>>,
    ) -> (r: Vec<String>)
        ensures
            is_resolved(texts(r@), patterns@.len() as int, found@),
    {
        let mut result: Vec<String> = Vec::new();
        let mut i: usize = 0;
        proof {
            assert(texts(result@) =~= resolved_files(0, found@));
        }
        while i < patterns.len()
            invariant
                i <= patterns.len(),
                texts(result@) == resolved_files(i as int, found@),
            decreases patterns.len() - i,
        {
            let ghost before = texts(result@);
            let mut files: Vec<String> = Vec::new();
            if i < found.len() {
                match &found[i] {
                    Some(matches) => {
                        files = files_among(matches);
                    },
                    None => {},
                }
            }
            let ghost unsorted = texts(files@);
            let sorted = sort_paths(files);
            let ghost part = texts(sorted@);
            let mut k: usize = 0;
            proof {
                assert(part.take(0) =~= Seq::<Seq<char>>::empty());
                assert(before + part.take(0) =~= before);
            }
            while k < sorted.len()
                invariant
                    k <= sorted.len(),
                    part == texts(sorted@),
                    texts(result@) == before + part.take(k as int),
                decreases sorted.len() - k,
            {
                let ghost so_far = texts(result@);
                result.push(sorted[k].clone());
                proof {
                    assert(texts(result@) =~= so_far.push(part[k as int]));
                    assert(part.take(k + 1) =~= part.take(k as int).push(part[k as int]));
                    assert(texts(result@) =~= before + part.take(k + 1));
                }
                k += 1;
            }
            proof {
                assert(part.take(sorted.len() as int) =~= part);
                assert(part == part_of(found@, i as int)) by {
                    if i < found@.len() && found@[i as int] is Some {
                    } else {
                        assert(unsorted =~= Seq::<Seq<char>>::empty());
                    }
                }
            }
            i += 1;
        }
        result
    }

    /// The paths at which a discovery for the package at `package_root` looks
    /// for files: the names that it looks for, under the workspace root and
    /// then under the package root.
    pub fn discovery_candidates(&self, package_root: &str) -> (r: Vec<String>)
        ensures
            texts(r@) == names_under(self.root(), priority_names()) + names_under(
                package_root@,
                priority_names(),
            ),
    {
        let names = auto_discovery_priority();
        let mut out: Vec<String> = Vec::new();
        let mut k: usize = 0;
        proof {
            assert(texts(out@) =~= names_under(self.root(), texts(names@).take(0)));
        }
        while k < names.len()
            invariant
                k <= names.len(),
                texts(names@) == priority_names(),
                texts(out@) == names_under(self.root(), texts(names@).take(k as int)),
            decreases names.len() - k,
        {
            let ghost so_far = texts(out@);
            let path = join_path(self.workspace_root.as_str(), names[k].as_str());
            out.push(path);
            proof {
                assert(texts(out@) =~= so_far.push(path@));
                assert(texts(out@) =~= names_under(self.root(), texts(names@).take(k + 1)));
            }
            k += 1;
        }
        let ghost first = texts(out@);
        proof {
            assert(texts(names@).take(names.len() as int) =~= texts(names@));
            assert(first + names_under(package_root@, texts(names@).take(0)) =~= first);
        }
        let mut k: usize = 0;
        while k < names.len()
            invariant
                k <= names.len(),
                texts(names@) == priority_names(),
                first == names_under(self.root(), priority_names()),
                texts(out@) == first + names_under(package_root@, texts(names@).take(k as int)),
            decreases names.len() - k,
        {
            let ghost so_far = texts(out@);
            let path = join_path(package_root, names[k].as_str());
            out.push(path);
            proof {
                assert(texts(out@) =~= so_far.push(path@));
                assert(texts(out@) =~= first + names_under(
                    package_root@,
                    texts(names@).take(k + 1),
                ));
            }
            k += 1;
        }
        proof {
            assert(texts(names@).take(names.len() as int) =~= texts(names@));
        }
        out
    }

    /// The files that are found where none is named, given which of the
    /// files that are looked for exist.
    pub fn auto_discover_files(
        &self,
        package_root: &str,
        packages: usize,
        existing: &Vec<String>,
    ) -> (r: Vec<String>)
        ensures
            texts(r@) == discovered(self.root(), package_root@, packages as nat, texts(existing@)),
    {
        let names = auto_discovery_priority();
        let mut result: Vec<String> = Vec::new();
        let is_monorepo = packages > 1 || !str_eq(package_root, self.workspace_root.as_str());
        if is_monorepo {
            match first_existing_file(self.workspace_root.as_str(), &names, existing) {
                Some(path) => {
                    result.push(path);
                },
                None => {},
            }
        }
        let ghost head = texts(result@);
        match first_existing_file(package_root, &names, existing) {
            Some(path) => {
                result.push(path);
                assert(texts(result@) =~= head.push(path@));
            },
            None => {},
        }
        proof {
            assert(texts(result@) =~= discovered(
                self.root(),
                package_root@,
                packages as nat,
                texts(existing@),
            ));
        }
        result
    }

    /// Decides what is to be selected for a file. With patterns that apply
    /// everywhere, these are resolved below the workspace root; without,
    /// or with none named, files are discovered for the file. Then, where
    /// directory scopes apply to the file, the one that applies most deeply
    /// is taken: its patterns are resolved below its directory, and where
    /// it names none, files are discovered for its directory.
    pub fn plan_active_files(
        &self,
        file_path: &str,
        canonical_file: &str,
        global_patterns: Option<&Vec<String>>,
        scopes: &Vec<DirectoryScope>,
        canonical_scopes: &Vec<String>,
    ) -> (r: SelectionPlan)
        requires
            canonical_scopes@.len() == scopes@.len(),
        ensures
            is_plan(
                r,
                self.root(),
                file_path@,
                canonical_file@,
                match global_patterns {
                    Some(patterns) => Some(texts(patterns@)),
                    None => None,
                },
                scopes@,
                texts(canonical_scopes@),
            ),
    {
        let general = match global_patterns {
            Some(patterns) => {
                if patterns.len() == 0 {
                    FileSelection::AutoDiscover { for_path: file_path.to_owned() }
                } else {
                    FileSelection::Patterns {
                        base_dir: self.workspace_root.clone(),
                        patterns: clone_strings(patterns),
                    }
                }
            },
            None => FileSelection::AutoDiscover { for_path: file_path.to_owned() },
        };
        let ghost dirs = texts(canonical_scopes@);
        let mut best: Option<usize> = None;
        let mut i: usize = 0;
        while i < canonical_scopes.len()
            invariant
                i <= canonical_scopes.len(),
                canonical_scopes@.len() == scopes@.len(),
                dirs == texts(canonical_scopes@),
                match best {
                    Some(b) => b < i && scope_applies(dirs, canonical_file@, b as int) && forall|
                        j: int,
                    |
                        #![trigger dirs[j]]
                        0 <= j < i && scope_applies(dirs, canonical_file@, j) ==> byte_len(dirs[j])
                            < byte_len(dirs[b as int]) || (byte_len(dirs[j]) == byte_len(
                            dirs[b as int],
                        ) && b <= j),
                    None => forall|j: int| 0 <= j < i ==> !scope_applies(dirs, canonical_file@, j),
                },
            decreases canonical_scopes.len() - i,
        {
            proof {
                assert(dirs[i as int] == canonical_scopes@[i as int]@);
                if best is Some {
                    assert(dirs[best->0 as int] == canonical_scopes@[best->0 as int]@);
                }
            }
            if starts_with_path(canonical_file, canonical_scopes[i].as_str()) {
                match best {
                    None => {
                        best = Some(i);
                    },
                    Some(b) => {
                        if canonical_scopes[i].as_str().as_bytes().len()
                            > canonical_scopes[b].as_str().as_bytes().len() {
                            best = Some(i);
                        }
                    },
                }
            }
            i += 1;
        }
        let scoped = match best {
            Some(b) => {
                let scope = &scopes[b];
                proof {
                    assert(is_deepest_scope(dirs, canonical_file@, b as int));
                }
                if scope.patterns.len() == 0 {
                    Some(FileSelection::AutoDiscover { for_path: scope.directory.clone() })
                } else {
                    Some(
                        FileSelection::Patterns {
                            base_dir: scope.directory.clone(),
                            patterns: clone_strings(&scope.patterns),
                        },
                    )
                }
            },
            None => None,
        };
        SelectionPlan { general, scoped }
    }

    /// The files of one selection, given what the caller has found on disk
    /// for it. Facts of the wrong kind, and a path without package, select
    /// nothing.
    pub fn select_files(&self, selection: &FileSelection, facts: &SelectionFacts) -> (r: Vec<String>)
        ensures
            texts(r@) == selected_files(self.root(), *selection, *facts),
    {
        match selection {
            FileSelection::AutoDiscover { .. } => match facts {
                SelectionFacts::Discovered { package_root, packages, existing } => self.auto_discover_files(
                    package_root.as_str(),
                    *packages,
                    existing,
                ),
                _ => Vec::new(),
            },
            FileSelection::Patterns { patterns, .. } => match facts {
                SelectionFacts::Globbed { found } => self.resolve_patterns(patterns, found),
                _ => Vec::new(),
            },
        }
    }

    /// The active files of a plan: those of the general selection, then
    /// those of the scoped one. A file may be listed twice.
    pub fn compute_active_files(
        &self,
        plan: &SelectionPlan,
        general: &SelectionFacts,
        scoped: &SelectionFacts,
    ) -> (r: Vec<String>)
        ensures
            texts(r@) == active_files_of(self.root(), *plan, *general, *scoped),
    {
        let mut result = self.select_files(&plan.general, general);
        let ghost first = texts(result@);
        let more = match &plan.scoped {
            Some(selection) => self.select_files(selection, scoped),
            None => Vec::new(),
        };
        let ghost second = texts(more@);
        let mut k: usize = 0;
        proof {
            assert(first + second.take(0) =~= first);
        }
        while k < more.len()
            invariant
                k <= more.len(),
                second == texts(more@),
                texts(result@) == first + second.take(k as int),
            decreases more.len() - k,
        {
            let ghost so_far = texts(result@);
            result.push(more[k].clone());
            proof {
                assert(texts(result@) =~= so_far.push(second[k as int]));
                assert(second.take(k + 1) =~= second.take(k as int).push(second[k as int]));
                assert(texts(result@) =~= first + second.take(k + 1));
            }
            k += 1;
        }
        proof {
            assert(second.take(more.len() as int) =~= second);
            assert(texts(result@) == first + second);
            if plan.scoped is None {
                assert(second =~= Seq::<Seq<char>>::empty());
            }
        }
        result
    }
}

/// Whether `r` is the plan for a file: with patterns that apply everywhere,
/// and some are named, these are resolved below the root, else files are
/// discovered for the file; and the scope that applies to the file most
/// deeply, if any applies, gives the scoped selection.
pub open spec fn is_plan(
    r: SelectionPlan,
    root: Seq<char>,
    file_path: Seq<char>,
    canonical_file: Seq<char>,
    global: Option<Seq<Seq<char>>>,
    scopes: Seq<DirectoryScope>,
    canonical_scopes: Seq<Seq<char>>,
) -> bool {
    &&& r.general@ == selection_of(
        file_path,
        root,
        match global {
            Some(patterns) => patterns,
            None => Seq::empty(),
        },
    )
    &&& match r.scoped {
        Some(selection) => exists|i: int|
            #![trigger scopes[i]]
            is_deepest_scope(canonical_scopes, canonical_file, i) && selection@ == selection_of(
                scopes[i].directory@,
                scopes[i].directory@,
                scopes[i]@.1,
            ),
        None => forall|i: int| !scope_applies(canonical_scopes, canonical_file, i),
    }
}

/// What the pattern at place `k` selects: the files among its matches, in
/// the order of paths; nothing where the pattern is no glob or nothing is
/// told of it.
pub open spec fn part_of(found: Seq<Option<Vec<GlobMatch>>>, k: int) -> Seq<Seq<char>> {
    if 0 <= k < found.len() && found[k] is Some {
        sorted_paths(matched_files(found[k]->0@))
    } else {
        Seq::empty()
    }
}

/// What the first `patterns` patterns select, given what each has matched:
/// the parts of the patterns, one after the other.
pub open spec fn resolved_files(patterns: int, found: Seq<Option<Vec<GlobMatch>>>) -> Seq<
    Seq<char>,
>
    decreases patterns,
{
    if patterns <= 0 {
        Seq::empty()
    } else {
        resolved_files(patterns - 1, found) + part_of(found, patterns - 1)
    }
}

/// Whether `files` is what `patterns` patterns select.
pub open spec fn is_resolved(
    files: Seq<Seq<char>>,
    patterns: int,
    found: Seq<Option<Vec<GlobMatch>>>,
) -> bool {
    files == resolved_files(patterns, found)
}

/// The files of a selection, given the facts: facts of the wrong kind
/// select nothing.
pub open spec fn selected_files(root: Seq<char>, selection: FileSelection, facts: SelectionFacts) -> Seq<
    Seq<char>,
> {
    match (selection, facts) {
        (
            FileSelection::AutoDiscover { .. },
            SelectionFacts::Discovered { package_root, packages, existing },
        ) => discovered(root, package_root@, packages as nat, texts(existing@)),
        (
            FileSelection::Patterns { patterns, .. },
            SelectionFacts::Globbed { found },
        ) => resolved_files(patterns@.len() as int, found@),
        _ => Seq::empty(),
    }
}

/// The active files of a plan: those of the general selection, then those
/// of the scoped one.
pub open spec fn active_files_of(
    root: Seq<char>,
    plan: SelectionPlan,
    general: SelectionFacts,
    scoped: SelectionFacts,
) -> Seq<Seq<char>> {
    selected_files(root, plan.general, general) + match plan.scoped {
        Some(selection) => selected_files(root, selection, scoped),
        None => Seq::empty(),
    }
}

/// The first of the names under which a file exists in `dir`, as a path.
pub fn first_existing_file(dir: &str, names: &Vec<String>, existing: &Vec<String>) -> (r: Option<
    String,
>)
    ensures
        crate::text::opt_text(r) == first_existing(dir@, texts(names@), texts(existing@), 0),
{
    let mut i: usize = 0;
    while i < names.len()
        invariant
            i <= names.len(),
            first_existing(dir@, texts(names@), texts(existing@), 0) == first_existing(
                dir@,
                texts(names@),
                texts(existing@),
                i as int,
            ),
        decreases names.len() - i,
    {
        let path = join_path(dir, names[i].as_str());
        assert(texts(names@)[i as int] == names@[i as int]@);
        if contains_text(existing, path.as_str()) {
            return Some(path);
        }
        i += 1;
    }
    None
}

/// Where the preferred name exists in a directory, it is the one that is
/// found there, whatever else exists.
pub proof fn lemma_preferred_name_wins(dir: Seq<char>, existing: Seq<Seq<char>>)
    requires
        existing.contains(path_join(dir, ".env.local"@)),
    ensures
        first_existing(dir, priority_names(), existing, 0) == Some(path_join(dir, ".env.local"@)),
{
    assert(priority_names()[0] == ".env.local"@);
}

/// Of two scopes that apply to a file, the one with the longer directory
/// is taken.
pub proof fn lemma_deeper_scope_wins(
    canonical_scopes: Seq<Seq<char>>,
    canonical_file: Seq<char>,
    chosen: int,
    shallow: int,
    deep: int,
)
    requires
        is_deepest_scope(canonical_scopes, canonical_file, chosen),
        scope_applies(canonical_scopes, canonical_file, shallow),
        scope_applies(canonical_scopes, canonical_file, deep),
        byte_len(canonical_scopes[shallow]) < byte_len(canonical_scopes[deep]),
    ensures
        chosen != shallow,
        byte_len(canonical_scopes[chosen]) >= byte_len(canonical_scopes[deep]),
{
    assert(canonical_scopes[deep] == canonical_scopes[deep]);
    assert(canonical_scopes[shallow] == canonical_scopes[shallow]);
}

/// The active files of a plan are those of the general selection and then
/// those of the scope that applies to the file most deeply: where scopes
/// apply, the deepest of them gives the scoped selection of the plan, and no
/// other scope adds a file.
pub proof fn lemma_active_files_take_the_deepest_scope(
    plan: SelectionPlan,
    root: Seq<char>,
    file_path: Seq<char>,
    canonical_file: Seq<char>,
    global: Option<Seq<Seq<char>>>,
    scopes: Seq<DirectoryScope>,
    canonical_scopes: Seq<Seq<char>>,
    general: SelectionFacts,
    scoped: SelectionFacts,
    deep: int,
)
    requires
        is_plan(plan, root, file_path, canonical_file, global, scopes, canonical_scopes),
        is_deepest_scope(canonical_scopes, canonical_file, deep),
    ensures
        plan.scoped is Some,
        plan.scoped->0@ == selection_of(
            scopes[deep].directory@,
            scopes[deep].directory@,
            scopes[deep]@.1,
        ),
        active_files_of(root, plan, general, scoped) == selected_files(root, plan.general, general)
            + selected_files(root, plan.scoped->0, scoped),
{
    assert(scope_applies(canonical_scopes, canonical_file, deep));
    let i = choose|i: int|
        #![trigger scopes[i]]
        is_deepest_scope(canonical_scopes, canonical_file, i) && plan.scoped->0@ == selection_of(
            scopes[i].directory@,
            scopes[i].directory@,
            scopes[i]@.1,
        );
    assert(scope_applies(canonical_scopes, canonical_file, i));
    let _ = canonical_scopes[i];
    let _ = canonical_scopes[deep];
    assert(i == deep);
}

} // verus!
