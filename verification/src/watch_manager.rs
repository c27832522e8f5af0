//! What is published when a watched file changes.

use vstd::prelude::*;
use crate::events::AbundantisEvent;
use crate::source::traits::{SourceId, SourceSnapshot};
use crate::source::variable::{variable_views, ParsedVariable};
use crate::text::{contains_text, texts};
use crate::watch::{
    change_of, change_views, changes_of, watched_paths, with_watch, ChangeKind, EventPath,
    FileChanged, FileWatcher, WatchEventKind,
};
use crate::resolution::interpolate::variable_keys;

verus! {

/// Whether `only` holds, each once, the keys of `keys` that `other` does not
/// hold.
pub open spec fn is_difference(
    only: Seq<Seq<char>>,
    keys: Seq<Seq<char>>,
    other: Seq<Seq<char>>,
) -> bool {
    &&& only.no_duplicates()
    &&& forall|k: Seq<char>| only.contains(k) <==> keys.contains(k) && !other.contains(k)
}

/// Whether an event tells that the variables of a source changed.
pub open spec fn is_variables_changed(
    e: AbundantisEvent,
    source_id: Seq<char>,
    added: Seq<Seq<char>>,
    removed: Seq<Seq<char>>,
) -> bool {
    match e {
        AbundantisEvent::VariablesChanged { source_id: id, added: a, removed: r } => id@
            == source_id && texts(a@) == added && texts(r@) == removed,
        _ => false,
    }
}

/// Whether an event tells that the whole cache is stale.
pub open spec fn is_cache_invalidated(e: AbundantisEvent) -> bool {
    match e {
        AbundantisEvent::CacheInvalidated { scope } => scope is None,
        _ => false,
    }
}

/// The keys of a list of variables.
pub fn keys_of(variables: &Vec<ParsedVariable>) -> (r: Vec<String>)
    ensures
        texts(r@) == variable_keys(variable_views(variables@)),
{
    let mut out: Vec<String> = Vec::new();
    let mut i: usize = 0;
    while i < variables.len()
        invariant
            i <= variables.len(),
            out@.len() == i,
            forall|k: int| 0 <= k < i ==> (#[trigger] out@[k])@ == variables@[k].key@,
        decreases variables.len() - i,
    {
        out.push(variables[i].key.clone());
        i += 1;
    }
    assert(texts(out@) =~= variable_keys(variable_views(variables@)));
    out
}

/// The keys of `keys` that `other` does not hold, each once, in the order
/// in which they first stand in `keys`.
pub open spec fn difference(keys: Seq<Seq<char>>, other: Seq<Seq<char>>) -> Seq<Seq<char>>
    decreases keys.len(),
{
    if keys.len() == 0 {
        Seq::empty()
    } else {
        let front = difference(keys.drop_last(), other);
        if other.contains(keys.last()) || front.contains(keys.last()) {
            front
        } else {
            front.push(keys.last())
        }
    }
}

/// The difference holds each key of `keys` that `other` lacks, once, and
/// nothing else.
pub proof fn lemma_difference_holds_the_missing(keys: Seq<Seq<char>>, other: Seq<Seq<char>>)
    ensures
        is_difference(difference(keys, other), keys, other),
    decreases keys.len(),
{
    let only = difference(keys, other);
    if keys.len() == 0 {
        assert forall|k: Seq<char>| !keys.contains(k) by {}
    } else {
        let seen = keys.drop_last();
        let key = keys.last();
        let front = difference(seen, other);
        lemma_difference_holds_the_missing(seen, other);
        assert(keys =~= seen.push(key));
        assert forall|k: Seq<char>| only.contains(k) <==> keys.contains(k) && !other.contains(
            k,
        ) by {
            if only.contains(k) {
                let w = choose|w: int| 0 <= w < only.len() && only[w] == k;
                if w < front.len() {
                    assert(front[w] == k);
                    assert(front.contains(k));
                    let u = choose|u: int| 0 <= u < seen.len() && seen[u] == k;
                    assert(keys[u] == k);
                } else {
                    assert(keys[keys.len() - 1] == k);
                }
            }
            if keys.contains(k) && !other.contains(k) {
                let u = choose|u: int| 0 <= u < keys.len() && keys[u] == k;
                if u < seen.len() {
                    assert(seen[u] == k);
                    assert(seen.contains(k));
                    assert(front.contains(k));
                    let w = choose|w: int| 0 <= w < front.len() && front[w] == k;
                    assert(only[w] == k);
                } else if front.contains(k) {
                    let w = choose|w: int| 0 <= w < front.len() && front[w] == k;
                    assert(only[w] == k);
                } else {
                    assert(only[front.len() as int] == k);
                }
            }
        }
        assert(only.no_duplicates()) by {
            if only.len() > front.len() {
                assert forall|a: int, b: int|
                    0 <= a < only.len() && 0 <= b < only.len() && a != b implies only[a]
                    != only[b] by {
                    if a < front.len() && b < front.len() {
                        assert(front[a] != front[b]);
                    } else if a < front.len() {
                        assert(front.contains(front[a]));
                    } else {
                        assert(front.contains(front[b]));
                    }
                }
            }
        }
    }
}

/// The keys of `keys` that `other` does not hold, each once, in the order
/// in which they first stand in `keys`.
pub fn keys_missing_from(keys: &Vec<String>, other: &Vec<String>) -> (r: Vec<String>)
    ensures
        texts(r@) == difference(texts(keys@), texts(other@)),
        is_difference(texts(r@), texts(keys@), texts(other@)),
{
    let ghost all = texts(keys@);
    let mut out: Vec<String> = Vec::new();
    let mut i: usize = 0;
    proof {
        assert(all.take(0) =~= Seq::<Seq<char>>::empty());
        assert(texts(out@) =~= Seq::<Seq<char>>::empty());
    }
    while i < keys.len()
        invariant
            i <= keys.len(),
            all == texts(keys@),
            texts(out@) == difference(all.take(i as int), texts(other@)),
        decreases keys.len() - i,
    {
        let key = keys[i].as_str();
        let ghost before = texts(out@);
        let ghost more = all.take(i + 1);
        proof {
            assert(more.drop_last() =~= all.take(i as int));
            assert(more.last() == key@);
        }
        if !contains_text(other, key) && !contains_text(&out, key) {
            out.push(keys[i].clone());
            proof {
                assert(texts(out@) =~= before.push(key@));
            }
        }
        i += 1;
    }
    proof {
        assert(all.take(keys.len() as int) =~= all);
        lemma_difference_holds_the_missing(all, texts(other@));
    }
    out
}

/// The changes whose path is among `sources`, in order.
pub open spec fn concerning(
    sources: Seq<Seq<char>>,
    changes: Seq<(Seq<char>, ChangeKind)>,
) -> Seq<(Seq<char>, ChangeKind)>
    decreases changes.len(),
{
    if changes.len() == 0 {
        Seq::empty()
    } else if sources.contains(changes.last().0) {
        concerning(sources, changes.drop_last()).push(changes.last())
    } else {
        concerning(sources, changes.drop_last())
    }
}

/// The paths of the file sources that are watched, with the watcher.
/// Loading the sources and publishing the events is left to the caller.
#[derive(Debug)]
pub struct WatchManager {
    watcher: FileWatcher,
    file_sources: Vec<String>,
}

impl WatchManager {
    /// The watcher.
    pub closed spec fn watcher(&self) -> FileWatcher {
        self.watcher
    }

    /// The paths of the watched sources, as the sources name them.
    pub closed spec fn source_paths(&self) -> Seq<Seq<char>> {
        texts(self.file_sources@)
    }

    pub fn new() -> (r: Self)
        ensures
            r.watcher().watched().len() == 0,
            r.source_paths().len() == 0,
    {
        WatchManager { watcher: FileWatcher::new(), file_sources: Vec::new() }
    }

    /// Watches the file of a source: `path` is the path as the source names
    /// it, `canonical` its canonical form.
    pub fn watch_file(&mut self, path: &str, canonical: &str, source_id: &SourceId)
        ensures
            final(self).watcher().watched() == with_watch(
                old(self).watcher().watched(),
                canonical@,
                source_id@,
            ),
            final(self).source_paths() == if old(self).source_paths().contains(path@) {
                old(self).source_paths()
            } else {
                old(self).source_paths().push(path@)
            },
            watched_paths(final(self).watcher().watched()).contains(canonical@),
            final(self).source_paths().contains(path@),
    {
        self.watcher.watch(canonical, source_id.as_str());
        proof {
            let old_paths = watched_paths(old(self).watcher.watched());
            let p = crate::text::position_of(old_paths, canonical@);
            crate::text::lemma_position_of_range(old_paths, canonical@);
            let new_paths = watched_paths(self.watcher.watched());
            if p >= 0 {
                assert(new_paths[p] == canonical@);
            } else {
                assert(new_paths[old_paths.len() as int] == canonical@);
            }
        }
        let ghost before = self.source_paths();
        if !contains_text(&self.file_sources, path) {
            self.file_sources.push(path.to_owned());
            proof {
                let after = self.source_paths();
                assert(after =~= before.push(path@));
                assert(after[before.len() as int] == path@);
            }
        }
    }

    /// Stops watching the file of a source.
    pub fn unwatch_file(&mut self, path: &str, canonical: &str)
        ensures
            final(self).source_paths() == if crate::text::position_of(
                old(self).source_paths(),
                path@,
            ) >= 0 {
                old(self).source_paths().remove(
                    crate::text::position_of(old(self).source_paths(), path@),
                )
            } else {
                old(self).source_paths()
            },
            final(self).watcher().watched() == if crate::text::position_of(
                watched_paths(old(self).watcher().watched()),
                canonical@,
            ) >= 0 {
                old(self).watcher().watched().remove(
                    crate::text::position_of(
                        watched_paths(old(self).watcher().watched()),
                        canonical@,
                    ),
                )
            } else {
                old(self).watcher().watched()
            },
    {
        self.watcher.unwatch(canonical);
        let ghost before = self.source_paths();
        match crate::text::find_text(&self.file_sources, path) {
            Some(i) => {
                let _ = self.file_sources.remove(i);
                assert(self.source_paths() =~= before.remove(i as int));
            },
            None => {},
        }
    }

    pub fn watched_files(&self) -> (r: Vec<String>)
        ensures
            texts(r@) == watched_paths(self.watcher().watched()),
    {
        self.watcher.paths()
    }

    pub fn is_watching(&self, canonical: &str) -> (r: bool)
        ensures
            r == watched_paths(self.watcher().watched()).contains(canonical@),
    {
        self.watcher.is_watching(canonical)
    }

    /// Whether a change concerns a watched source: its path is the path of
    /// one.
    pub fn concerns(&self, change: &FileChanged) -> (r: bool)
        ensures
            r == self.source_paths().contains(change.path@),
    {
        contains_text(&self.file_sources, change.path.as_str())
    }

    /// The changes that an event of the system means for the watched
    /// sources: those of its changes whose path is the path of one.
    pub fn changes(&self, kind: WatchEventKind, paths: &Vec<EventPath>) -> (r: Vec<FileChanged>)
        ensures
            change_views(r@) == concerning(
                self.source_paths(),
                match change_of(kind) {
                    Some(change) => changes_of(
                        watched_paths(self.watcher().watched()),
                        change,
                        paths@,
                    ),
                    None => Seq::empty(),
                },
            ),
    {
        let all = self.watcher.changes(kind, paths);
        let ghost views = change_views(all@);
        let mut out: Vec<FileChanged> = Vec::new();
        let mut i: usize = 0;
        proof {
            assert(views.take(0) =~= Seq::<(Seq<char>, ChangeKind)>::empty());
            assert(change_views(out@) =~= Seq::<(Seq<char>, ChangeKind)>::empty());
        }
        while i < all.len()
            invariant
                i <= all.len(),
                views == change_views(all@),
                change_views(out@) == concerning(self.source_paths(), views.take(i as int)),
            decreases all.len() - i,
        {
            proof {
                assert(views.take(i + 1).drop_last() =~= views.take(i as int));
                assert(views.take(i + 1).last() == (all@[i as int].path@, all@[i as int].kind));
            }
            if self.concerns(&all[i]) {
                let ghost before = change_views(out@);
                out.push(FileChanged { path: all[i].path.clone(), kind: all[i].kind });
                proof {
                    assert(change_views(out@) =~= before.push(
                        (all@[i as int].path@, all@[i as int].kind),
                    ));
                }
            }
            i += 1;
        }
        proof {
            assert(views.take(all.len() as int) =~= views);
        }
        out
    }

    /// What is published when a file was modified, given what its source
    /// yielded before and after it was read again: which keys came and
    /// which went, then that the cache is stale.
    pub fn handle_file_change(source_id: &SourceId, before: &SourceSnapshot, after: &SourceSnapshot) -> (r:
        Vec<AbundantisEvent>)
        ensures
            r@.len() == 2,
            is_variables_changed(
                r@[0],
                source_id@,
                difference(variable_keys(after@.variables), variable_keys(before@.variables)),
                difference(variable_keys(before@.variables), variable_keys(after@.variables)),
            ),
            is_cache_invalidated(r@[1]),
    {
        let before_keys = keys_of(&before.variables);
        let after_keys = keys_of(&after.variables);
        let added = keys_missing_from(&after_keys, &before_keys);
        let removed = keys_missing_from(&before_keys, &after_keys);
        let ghost a = texts(added@);
        let ghost b = texts(removed@);
        let mut events: Vec<AbundantisEvent> = Vec::new();
        events.push(AbundantisEvent::VariablesChanged { source_id: source_id.clone(), added, removed });
        events.push(AbundantisEvent::CacheInvalidated { scope: None });
        proof {
            assert(is_variables_changed(events@[0], source_id@, a, b));
        }
        events
    }

    /// What is published when a file was created, given what its source
    /// yields: all its keys came; then that the cache is stale.
    pub fn handle_file_create(source_id: &SourceId, snapshot: &SourceSnapshot) -> (r: Vec<
        AbundantisEvent,
    >)
        ensures
            r@.len() == 2,
            is_variables_changed(
                r@[0],
                source_id@,
                variable_keys(snapshot@.variables),
                Seq::empty(),
            ),
            is_cache_invalidated(r@[1]),
    {
        let added = keys_of(&snapshot.variables);
        let removed: Vec<String> = Vec::new();
        assert(texts(removed@) =~= Seq::<Seq<char>>::empty());
        let mut events: Vec<AbundantisEvent> = Vec::new();
        events.push(AbundantisEvent::VariablesChanged { source_id: source_id.clone(), added, removed });
        events.push(AbundantisEvent::CacheInvalidated { scope: None });
        events
    }

    /// What is published when a file was deleted, given what its source
    /// yielded last: all its keys went; then that the cache is stale.
    pub fn handle_file_delete(source_id: &SourceId, snapshot: &SourceSnapshot) -> (r: Vec<
        AbundantisEvent,
    >)
        ensures
            r@.len() == 2,
            is_variables_changed(
                r@[0],
                source_id@,
                Seq::empty(),
                variable_keys(snapshot@.variables),
            ),
            is_cache_invalidated(r@[1]),
    {
        let removed = keys_of(&snapshot.variables);
        let added: Vec<String> = Vec::new();
        assert(texts(added@) =~= Seq::<Seq<char>>::empty());
        let mut events: Vec<AbundantisEvent> = Vec::new();
        events.push(AbundantisEvent::VariablesChanged { source_id: source_id.clone(), added, removed });
        events.push(AbundantisEvent::CacheInvalidated { scope: None });
        events
    }

    /// Whether a change of this kind is told by comparing what the source
    /// yielded before it was read again with what it yields after: only a
    /// modification is. For the other kinds the source is loaded once.
    pub fn needs_before(kind: ChangeKind) -> (r: bool)
        ensures
            r == (kind == ChangeKind::Modified),
    {
        match kind {
            ChangeKind::Modified => true,
            ChangeKind::Created => false,
            ChangeKind::Deleted => false,
        }
    }

    /// What is published for a change of a watched file, given what its
    /// source yielded before it was read again and what it yields now: for
    /// a modification the keys that came and went, for a new file all its
    /// keys as come, for a deleted file all the keys that it last held as
    /// gone; then, always, that the cache is stale. `before` counts only
    /// for a modification.
    pub fn events_for(
        kind: ChangeKind,
        source_id: &SourceId,
        before: &SourceSnapshot,
        after: &SourceSnapshot,
    ) -> (r: Vec<AbundantisEvent>)
        ensures
            r@.len() == 2,
            is_variables_changed(
                r@[0],
                source_id@,
                keys_added(
                    kind,
                    variable_keys(before@.variables),
                    variable_keys(after@.variables),
                ),
                keys_removed(
                    kind,
                    variable_keys(before@.variables),
                    variable_keys(after@.variables),
                ),
            ),
            is_cache_invalidated(r@[1]),
    {
        match kind {
            ChangeKind::Modified => WatchManager::handle_file_change(source_id, before, after),
            ChangeKind::Created => WatchManager::handle_file_create(source_id, after),
            ChangeKind::Deleted => WatchManager::handle_file_delete(source_id, after),
        }
    }
}

/// The keys that a change of a file brought, given the keys that its source
/// held before and holds now.
pub open spec fn keys_added(kind: ChangeKind, before: Seq<Seq<char>>, after: Seq<Seq<char>>) -> Seq<
    Seq<char>,
> {
    match kind {
        ChangeKind::Modified => difference(after, before),
        ChangeKind::Created => after,
        ChangeKind::Deleted => Seq::empty(),
    }
}

/// The keys that a change of a file took away.
pub open spec fn keys_removed(kind: ChangeKind, before: Seq<Seq<char>>, after: Seq<Seq<char>>) -> Seq<
    Seq<char>,
> {
    match kind {
        ChangeKind::Modified => difference(before, after),
        ChangeKind::Created => Seq::empty(),
        ChangeKind::Deleted => after,
    }
}

} // verus!
