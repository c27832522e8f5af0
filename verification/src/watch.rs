//! Watched files and what a change of one means.

use vstd::prelude::*;
use crate::text::{lemma_position_of_first, lemma_position_of_range, position_of, str_eq, texts};

verus! {

/// What happened to a file.
#[derive(Debug, Clone, Copy, PartialEq, Eq, Structural)]
pub enum ChangeKind {
    Created,
    Modified,
    Deleted,
}

/// A change of one watched file.
#[derive(Debug)]
pub struct FileChanged {
    pub path: String,
    pub kind: ChangeKind,
}

impl Clone for FileChanged {
    fn clone(&self) -> (r: Self)
        ensures
            r.path@ == self.path@,
            r.kind == self.kind,
    {
        FileChanged { path: self.path.clone(), kind: self.kind }
    }
}

impl PartialEq for FileChanged {
    fn eq(&self, other: &Self) -> (r: bool) {
        self.path == other.path && self.kind == other.kind
    }
}

impl Eq for FileChanged {}

impl vstd::std_specs::cmp::PartialEqSpecImpl for FileChanged {
    open spec fn obeys_eq_spec() -> bool {
        true
    }

    open spec fn eq_spec(&self, other: &Self) -> bool {
        self.path@ == other.path@ && self.kind == other.kind
    }
}

/// The kinds of events that the system reports of a file.
#[derive(Debug, Clone, Copy, PartialEq, Eq, Structural)]
pub enum WatchEventKind {
    Create,
    Modify,
    Remove,
    Other,
}

/// What an event of the system means; an event of another kind means
/// nothing.
pub open spec fn change_of(kind: WatchEventKind) -> Option<ChangeKind> {
    match kind {
        WatchEventKind::Create => Some(ChangeKind::Created),
        WatchEventKind::Modify => Some(ChangeKind::Modified),
        WatchEventKind::Remove => Some(ChangeKind::Deleted),
        WatchEventKind::Other => None,
    }
}

/// What an event of the system means.
pub fn classify(kind: WatchEventKind) -> (r: Option<ChangeKind>)
    ensures
        r == change_of(kind),
{
    match kind {
        WatchEventKind::Create => Some(ChangeKind::Created),
        WatchEventKind::Modify => Some(ChangeKind::Modified),
        WatchEventKind::Remove => Some(ChangeKind::Deleted),
        WatchEventKind::Other => None,
    }
}

/// A watched path and the identity of its source.
pub type WatchView = (Seq<char>, Seq<char>);

pub open spec fn watch_views(v: Seq<(String, String)>) -> Seq<WatchView> {
    Seq::new(v.len(), |i: int| (v[i].0@, v[i].1@))
}

pub open spec fn watched_paths(watched: Seq<WatchView>) -> Seq<Seq<char>> {
    Seq::new(watched.len(), |i: int| watched[i].0)
}

/// The watched paths once `path` is watched for `source_id`: a path that
/// is watched already keeps its place and gets the new source, another
/// comes last.
pub open spec fn with_watch(watched: Seq<WatchView>, path: Seq<char>, source_id: Seq<char>) -> Seq<
    WatchView,
> {
    if position_of(watched_paths(watched), path) >= 0 {
        watched.update(position_of(watched_paths(watched), path), (path, source_id))
    } else {
        watched.push((path, source_id))
    }
}

/// A path of an event, as the system reports it and in canonical form.
#[derive(Debug)]
pub struct EventPath {
    pub path: String,
    pub canonical: String,
}

/// The changes that an event means for the watched paths: one for each of
/// its paths that is watched, in order.
pub open spec fn changes_of(watched: Seq<Seq<char>>, kind: ChangeKind, paths: Seq<EventPath>) -> Seq<
    (Seq<char>, ChangeKind),
>
    decreases paths.len(),
{
    if paths.len() == 0 {
        Seq::empty()
    } else if watched.contains(paths.last().canonical@) {
        changes_of(watched, kind, paths.drop_last()).push((paths.last().path@, kind))
    } else {
        changes_of(watched, kind, paths.drop_last())
    }
}

pub open spec fn change_views(v: Seq<FileChanged>) -> Seq<(Seq<char>, ChangeKind)> {
    Seq::new(v.len(), |i: int| (v[i].path@, v[i].kind))
}

/// The paths that are watched, each with the identity of its source.
/// Watching the disk is left to the caller.
#[derive(Debug)]
pub struct FileWatcher {
    paths: Vec<(String, String)>,
}

impl FileWatcher {
    /// The watched paths, each once, in the order they were first watched.
    pub closed spec fn watched(&self) -> Seq<WatchView> {
        watch_views(self.paths@)
    }

    pub fn new() -> (r: Self)
        ensures
            r.watched().len() == 0,
    {
        FileWatcher { paths: Vec::new() }
    }

    /// The place of a path among the watched.
    fn find(&self, path: &str) -> (r: Option<usize>)
        ensures
            match r {
                Some(i) => position_of(watched_paths(self.watched()), path@) == i && i
                    < self.watched().len(),
                None => position_of(watched_paths(self.watched()), path@) == -1,
            },
    {
        let ghost paths = watched_paths(self.watched());
        let mut i: usize = 0;
        while i < self.paths.len()
            invariant
                i <= self.paths.len(),
                paths == watched_paths(self.watched()),
                forall|j: int| 0 <= j < i ==> paths[j] != path@,
            decreases self.paths.len() - i,
        {
            if str_eq(self.paths[i].0.as_str(), path) {
                proof {
                    assert(paths[i as int] == path@);
                    lemma_position_of_first(paths, path@, i as int);
                }
                return Some(i);
            }
            i += 1;
        }
        assert(!paths.contains(path@));
        None
    }

    /// Watches a path, given in canonical form, for a source. A path that
    /// is watched already is watched for the new source.
    pub fn watch(&mut self, path: &str, source_id: &str)
        ensures
            final(self).watched() == with_watch(old(self).watched(), path@, source_id@),
    {
        match self.find(path) {
            Some(i) => {
                self.paths.set(i, (path.to_owned(), source_id.to_owned()));
            },
            None => {
                self.paths.push((path.to_owned(), source_id.to_owned()));
            },
        }
        proof {
            let p = position_of(watched_paths(old(self).watched()), path@);
            if p >= 0 {
                assert(self.watched() =~= old(self).watched().update(p, (path@, source_id@)));
            } else {
                assert(self.watched() =~= old(self).watched().push((path@, source_id@)));
            }
        }
    }

    /// Stops watching a path.
    pub fn unwatch(&mut self, path: &str)
        ensures
            final(self).watched() == if position_of(watched_paths(old(self).watched()), path@)
                >= 0 {
                old(self).watched().remove(position_of(watched_paths(old(self).watched()), path@))
            } else {
                old(self).watched()
            },
    {
        match self.find(path) {
            Some(i) => {
                let _ = self.paths.remove(i);
                assert(self.watched() =~= old(self).watched().remove(i as int));
            },
            None => {},
        }
    }

    /// The watched paths.
    pub fn paths(&self) -> (r: Vec<String>)
        ensures
            texts(r@) == watched_paths(self.watched()),
    {
        let mut out: Vec<String> = Vec::new();
        let mut i: usize = 0;
        while i < self.paths.len()
            invariant
                i <= self.paths.len(),
                out@.len() == i,
                forall|k: int| 0 <= k < i ==> (#[trigger] out@[k])@ == self.paths@[k].0@,
            decreases self.paths.len() - i,
        {
            out.push(self.paths[i].0.clone());
            i += 1;
        }
        assert(texts(out@) =~= watched_paths(self.watched()));
        out
    }

    pub fn is_watching(&self, path: &str) -> (r: bool)
        ensures
            r == watched_paths(self.watched()).contains(path@),
    {
        proof {
            lemma_position_of_range(watched_paths(self.watched()), path@);
        }
        self.find(path).is_some()
    }

    /// The changes that an event of the system means: for each of its paths
    /// that is watched, the change of the path as the system named it. An
    /// event of unknown kind means nothing.
    pub fn changes(&self, kind: WatchEventKind, paths: &Vec<EventPath>) -> (r: Vec<FileChanged>)
        ensures
            change_views(r@) == match change_of(kind) {
                Some(change) => changes_of(watched_paths(self.watched()), change, paths@),
                None => Seq::empty(),
            },
    {
        let mut out: Vec<FileChanged> = Vec::new();
        let change = match classify(kind) {
            Some(change) => change,
            None => {
                assert(change_views(out@) =~= Seq::<(Seq<char>, ChangeKind)>::empty());
                return out;
            },
        };
        let ghost watched = watched_paths(self.watched());
        let mut i: usize = 0;
        proof {
            assert(paths@.take(0) =~= Seq::<EventPath>::empty());
            assert(change_views(out@) =~= changes_of(watched, change, paths@.take(0)));
        }
        while i < paths.len()
            invariant
                i <= paths.len(),
                watched == watched_paths(self.watched()),
                change_views(out@) == changes_of(watched, change, paths@.take(i as int)),
            decreases paths.len() - i,
        {
            proof {
                assert(paths@.take(i + 1).drop_last() =~= paths@.take(i as int));
                assert(paths@.take(i + 1).last() == paths@[i as int]);
            }
            if self.is_watching(paths[i].canonical.as_str()) {
                let ghost before = change_views(out@);
                out.push(FileChanged { path: paths[i].path.clone(), kind: change });
                assert(change_views(out@) =~= before.push((paths@[i as int].path@, change)));
            }
            i += 1;
        }
        assert(paths@.take(paths.len() as int) =~= paths@);
        out
    }
}

impl Default for FileWatcher {
    fn default() -> (r: Self)
        ensures
            r.watched().len() == 0,
    {
        FileWatcher::new()
    }
}

} // verus!
