//! The set of registered sources.

use vstd::prelude::*;
use std::sync::Arc;
use crate::error::SourceError;
use crate::resolution::order::id_texts;
use crate::source::traits::{EnvSource, SourceId, SourceSnapshot, SourceType};
use crate::text::{opt_text, strip_prefix, texts};

verus! {

/// What a factory makes a source from.
#[derive(Debug)]
pub struct SourceConfig {
    pub source_type: String,
    pub path: Option<String>,
    pub enabled: bool,
}

impl Clone for SourceConfig {
    fn clone(&self) -> (r: Self)
        ensures
            r.source_type@ == self.source_type@,
            opt_text(r.path) == opt_text(self.path),
            r.enabled == self.enabled,
    {
        SourceConfig {
            source_type: self.source_type.clone(),
            path: crate::text::clone_opt_string(&self.path),
            enabled: self.enabled,
        }
    }
}

/// The index from the paths of file sources to their identities, kept in a
/// `hashbrown::HashMap`.
#[verifier::external_body]
pub struct PathIndex {
    map: hashbrown::HashMap<String, String>,
}

/// What the index holds: for each path the identity filed under it.
pub uninterp spec fn path_index_entries(index: PathIndex) -> Map<Seq<char>, Seq<char>>;

/// An index that holds nothing.
pub open spec fn empty_path_index() -> Map<Seq<char>, Seq<char>> {
    Map::empty()
}

/// Wraps `HashMap::new`: a map that holds nothing.
#[verifier::external_body]
fn path_index_new() -> (index: PathIndex)
    ensures
        path_index_entries(index) == empty_path_index(),
{
    PathIndex { map: hashbrown::HashMap::new() }
}

/// Wraps `HashMap::insert`: the path has the identity afterwards.
#[verifier::external_body]
fn path_index_insert(index: &mut PathIndex, path: String, id: String)
    ensures
        path_index_entries(*final(index)) == path_index_entries(*old(index)).insert(path@, id@),
{
    index.map.insert(path, id);
}

/// Wraps `HashMap::remove`: the path has no identity afterwards.
#[verifier::external_body]
fn path_index_remove(index: &mut PathIndex, path: &str)
    ensures
        path_index_entries(*final(index)) == path_index_entries(*old(index)).remove(path@),
{
    index.map.remove(path);
}

/// Wraps `HashMap::get`: a copy of the identity filed under the path.
#[verifier::external_body]
fn path_index_get(index: &PathIndex, path: &str) -> (r: Option<String>)
    ensures
        r is Some == path_index_entries(*index).contains_key(path@),
        r matches Some(id) ==> id@ == path_index_entries(*index)[path@],
{
    index.map.get(path).cloned()
}

/// Wraps `HashMap::keys`: a copy of every path, each once, in the order in
/// which the map happens to walk them.
#[verifier::external_body]
fn path_index_keys(index: &PathIndex) -> (r: Vec<String>)
    ensures
        texts(r@).to_set() == path_index_entries(*index).dom(),
        texts(r@).no_duplicates(),
{
    index.map.keys().cloned().collect()
}

/// The place at which a source of rank `rank` goes into sources that stand
/// highest rank first: behind every source of the same or a higher rank.
pub open spec fn ranked_place<S: EnvSource>(sorted: Seq<Arc<S>>, rank: u32) -> int
    decreases sorted.len(),
{
    if sorted.len() == 0 {
        0
    } else if sorted.last().rank().0 < rank {
        ranked_place(sorted.drop_last(), rank)
    } else {
        sorted.len() as int
    }
}

/// The sources with the highest rank first, sources of one rank in the
/// order in which they stand in `all`.
pub open spec fn by_rank<S: EnvSource>(all: Seq<Arc<S>>) -> Seq<Arc<S>>
    decreases all.len(),
{
    if all.len() == 0 {
        Seq::empty()
    } else {
        by_rank(all.drop_last()).insert(
            ranked_place(by_rank(all.drop_last()), all.last().rank().0),
            all.last(),
        )
    }
}

/// Whether the path at place `p` is filed under the identity `id`.
pub open spec fn files_id(
    index: Map<Seq<char>, Seq<char>>,
    paths: Seq<String>,
    p: int,
    id: Seq<char>,
) -> bool {
    0 <= p < paths.len() && index.contains_key(paths[p]@) && index[paths[p]@] == id
}

/// Whether one of the first `upto` paths is filed under the identity `id`.
pub open spec fn filed_among(
    index: Map<Seq<char>, Seq<char>>,
    paths: Seq<String>,
    upto: int,
    id: Seq<char>,
) -> bool {
    exists|p: int| 0 <= p < upto && #[trigger] files_id(index, paths, p, id)
}

proof fn lemma_filed_among_more(
    index: Map<Seq<char>, Seq<char>>,
    paths: Seq<String>,
    upto: int,
    more: int,
    id: Seq<char>,
)
    requires
        filed_among(index, paths, upto, id),
        upto <= more,
    ensures
        filed_among(index, paths, more, id),
{
    let p = choose|p: int| 0 <= p < upto && #[trigger] files_id(index, paths, p, id);
    assert(0 <= p < more && files_id(index, paths, p, id));
}

/// The identities of a list of sources, in order.
pub open spec fn source_ids<S: EnvSource>(sources: Seq<Arc<S>>) -> Seq<Seq<char>> {
    Seq::new(sources.len(), |i: int| sources[i].id_text())
}

/// The place of the source with the identity `id`, or -1.
pub open spec fn source_position<S: EnvSource>(sources: Seq<Arc<S>>, id: Seq<char>) -> int {
    crate::text::position_of(source_ids(sources), id)
}

/// The path that a file source's identity names: what follows `file:`.
pub open spec fn indexed_path(id: Seq<char>) -> Option<Seq<char>> {
    if "file:"@.is_prefix_of(id) {
        Some(id.skip("file:"@.len() as int))
    } else {
        None
    }
}

/// The sources after `source` was registered: a source with the same
/// identity is replaced where it stands, another goes to the end.
pub open spec fn with_source<S: EnvSource>(sources: Seq<Arc<S>>, source: Arc<S>) -> Seq<Arc<S>> {
    if source_position(sources, source.id_text()) >= 0 {
        sources.update(source_position(sources, source.id_text()), source)
    } else {
        sources.push(source)
    }
}

/// The index after `source` was registered: a file source whose identity
/// names a path is filed under that path.
pub open spec fn with_filed<S: EnvSource>(index: Map<Seq<char>, Seq<char>>, source: Arc<S>) -> Map<
    Seq<char>,
    Seq<char>,
> {
    if source.kind() == SourceType::File && indexed_path(source.id_text()) is Some {
        index.insert(indexed_path(source.id_text())->0, source.id_text())
    } else {
        index
    }
}

/// The sources after each of `added` was registered, in order.
pub open spec fn with_sources<S: EnvSource>(sources: Seq<Arc<S>>, added: Seq<Arc<S>>) -> Seq<
    Arc<S>,
>
    decreases added.len(),
{
    if added.len() == 0 {
        sources
    } else {
        with_source(with_sources(sources, added.drop_last()), added.last())
    }
}

/// The index after each of `added` was registered, in order.
pub open spec fn with_all_filed<S: EnvSource>(
    index: Map<Seq<char>, Seq<char>>,
    added: Seq<Arc<S>>,
) -> Map<Seq<char>, Seq<char>>
    decreases added.len(),
{
    if added.len() == 0 {
        index
    } else {
        with_filed(with_all_filed(index, added.drop_last()), added.last())
    }
}

/// The sources after each with an identity among `ids` was dropped, in the
/// order of `ids`.
pub open spec fn without_sources<S: EnvSource>(sources: Seq<Arc<S>>, ids: Seq<Seq<char>>) -> Seq<
    Arc<S>,
>
    decreases ids.len(),
{
    if ids.len() == 0 {
        sources
    } else {
        without_source(without_sources(sources, ids.drop_last()), ids.last())
    }
}

/// The sources without the one with the identity `id`.
pub open spec fn without_source<S: EnvSource>(sources: Seq<Arc<S>>, id: Seq<char>) -> Seq<Arc<S>> {
    if source_position(sources, id) >= 0 {
        sources.remove(source_position(sources, id))
    } else {
        sources
    }
}

/// The index without the path that the identity `id` names.
pub open spec fn without_filed(index: Map<Seq<char>, Seq<char>>, id: Seq<char>) -> Map<
    Seq<char>,
    Seq<char>,
> {
    match indexed_path(id) {
        Some(path) => index.remove(path),
        None => index,
    }
}

/// The index without the paths that the identities `ids` name.
pub open spec fn without_all_filed(index: Map<Seq<char>, Seq<char>>, ids: Seq<Seq<char>>) -> Map<
    Seq<char>,
    Seq<char>,
>
    decreases ids.len(),
{
    if ids.len() == 0 {
        index
    } else {
        without_filed(without_all_filed(index, ids.drop_last()), ids.last())
    }
}

/// The sources that are filed under the paths, in the order of the paths:
/// a path adds the source whose identity is filed under it, where one is
/// registered and was not added by an earlier path.
pub open spec fn filed_sources<S: EnvSource>(
    index: Map<Seq<char>, Seq<char>>,
    sources: Seq<Arc<S>>,
    paths: Seq<Seq<char>>,
) -> Seq<Arc<S>>
    decreases paths.len(),
{
    if paths.len() == 0 {
        Seq::empty()
    } else {
        let front = filed_sources(index, sources, paths.drop_last());
        let path = paths.last();
        if index.contains_key(path) && !source_ids(front).contains(index[path]) && source_position(
            sources,
            index[path],
        ) >= 0 {
            front.push(sources[source_position(sources, index[path])])
        } else {
            front
        }
    }
}

/// The registered sources and the index of the files among them.
pub struct SourceRegistry<S: EnvSource> {
    sync_sources: Vec<Arc<S>>,
    path_index: PathIndex,
}

impl<S: EnvSource> SourceRegistry<S> {
    /// The registered sources, in the order they were first registered.
    pub closed spec fn sources(&self) -> Seq<Arc<S>> {
        self.sync_sources@
    }

    /// The index from file paths to identities.
    pub closed spec fn path_index(&self) -> Map<Seq<char>, Seq<char>> {
        path_index_entries(self.path_index)
    }

    /// No two registered sources have one identity.
    pub open spec fn wf(&self) -> bool {
        source_ids(self.sources()).no_duplicates()
    }

    pub fn new() -> (r: Self)
        ensures
            r.wf(),
            r.sources().len() == 0,
            r.path_index() == empty_path_index(),
    {
        SourceRegistry { sync_sources: Vec::new(), path_index: path_index_new() }
    }

    /// The place of the source with the identity `id`.
    fn find(&self, id: &str) -> (r: Option<usize>)
        ensures
            match r {
                Some(i) => source_position(self.sources(), id@) == i && i < self.sources().len(),
                None => source_position(self.sources(), id@) == -1,
            },
    {
        let ghost ids = source_ids(self.sources());
        let mut i: usize = 0;
        while i < self.sync_sources.len()
            invariant
                i <= self.sync_sources.len(),
                ids == source_ids(self.sources()),
                forall|j: int| 0 <= j < i ==> ids[j] != id@,
            decreases self.sync_sources.len() - i,
        {
            if crate::text::str_eq(self.sync_sources[i].id().as_str(), id) {
                proof {
                    assert(ids[i as int] == id@);
                    crate::text::lemma_position_of_first(ids, id@, i as int);
                }
                return Some(i);
            }
            i += 1;
        }
        assert(!ids.contains(id@));
        None
    }

    /// Registers a source under its identity. A source registered under the
    /// same identity before is replaced. A file source whose identity names
    /// a path is filed under that path.
    pub fn register_sync(&mut self, source: Arc<S>) -> (id: SourceId)
        requires
            old(self).wf(),
        ensures
            final(self).wf(),
            id@ == source.id_text(),
            final(self).sources() == with_source(old(self).sources(), source),
            final(self).path_index() == with_filed(old(self).path_index(), source),
    {
        let id = source.id().clone();
        let is_file = source.source_type() == SourceType::File;
        let ghost ids0 = source_ids(self.sources());
        let found = self.find(id.as_str());
        proof {
            crate::text::lemma_position_of_range(ids0, id@);
        }
        match found {
            Some(i) => {
                self.sync_sources.set(i, source);
                proof {
                    assert(source_ids(self.sources()) =~= ids0);
                }
            },
            None => {
                self.sync_sources.push(source);
                proof {
                    let ids1 = source_ids(self.sources());
                    assert(ids1 =~= ids0.push(id@));
                    assert forall|a: int, b: int|
                        0 <= a < ids1.len() && 0 <= b < ids1.len() && a != b implies ids1[a]
                        != ids1[b] by {
                        if a < ids0.len() && b < ids0.len() {
                            assert(ids0[a] != ids0[b]);
                        } else if a < ids0.len() {
                            assert(ids0[a] == ids1[a]);
                            assert(ids0.contains(ids0[a]));
                        } else {
                            assert(ids0[b] == ids1[b]);
                            assert(ids0.contains(ids0[b]));
                        }
                    }
                }
            },
        }
        if is_file {
            match strip_prefix(id.as_str(), "file:") {
                Some(path) => {
                    path_index_insert(&mut self.path_index, path, id.as_str().to_owned());
                },
                None => {},
            }
        }
        id
    }

    /// Registers each of the sources, in order.
    pub fn register_all(&mut self, sources: &Vec<Arc<S>>)
        requires
            old(self).wf(),
        ensures
            final(self).wf(),
            final(self).sources() == with_sources(old(self).sources(), sources@),
            final(self).path_index() == with_all_filed(old(self).path_index(), sources@),
    {
        let mut i: usize = 0;
        proof {
            assert(sources@.take(0) =~= Seq::<Arc<S>>::empty());
        }
        while i < sources.len()
            invariant
                i <= sources.len(),
                self.wf(),
                self.sources() == with_sources(old(self).sources(), sources@.take(i as int)),
                self.path_index() == with_all_filed(old(self).path_index(), sources@.take(i as int)),
            decreases sources.len() - i,
        {
            proof {
                assert(sources@.take(i + 1).drop_last() =~= sources@.take(i as int));
            }
            let _ = self.register_sync(sources[i].clone());
            i += 1;
        }
        proof {
            assert(sources@.take(sources.len() as int) =~= sources@);
        }
    }

    /// Drops each source with an identity among `ids`, in order.
    pub fn unregister_all(&mut self, ids: &Vec<SourceId>)
        requires
            old(self).wf(),
        ensures
            final(self).wf(),
            final(self).sources() == without_sources(old(self).sources(), id_texts(ids@)),
            final(self).path_index() == without_all_filed(old(self).path_index(), id_texts(ids@)),
    {
        let ghost all = id_texts(ids@);
        let mut i: usize = 0;
        proof {
            assert(all.take(0) =~= Seq::<Seq<char>>::empty());
        }
        while i < ids.len()
            invariant
                i <= ids.len(),
                self.wf(),
                all == id_texts(ids@),
                self.sources() == without_sources(old(self).sources(), all.take(i as int)),
                self.path_index() == without_all_filed(old(self).path_index(), all.take(i as int)),
            decreases ids.len() - i,
        {
            proof {
                assert(all.take(i + 1).drop_last() =~= all.take(i as int));
                assert(all.take(i + 1).last() == ids@[i as int]@);
            }
            self.unregister_sync(&ids[i]);
            i += 1;
        }
        proof {
            assert(all.take(ids.len() as int) =~= all);
        }
    }

    /// The registered sources, the highest rank first; sources of one rank
    /// keep their order.
    pub fn sync_sources_by_priority(&self) -> (r: Vec<Arc<S>>)
        ensures
            r@ == by_rank(self.sources()),
            r@.to_multiset() == self.sources().to_multiset(),
            forall|i: int, j: int| 0 <= i < j < r@.len() ==> r@[i].rank().0 >= r@[j].rank().0,
    {
        let mut sorted: Vec<Arc<S>> = Vec::new();
        let mut i: usize = 0;
        proof {
            assert(self.sources().take(0) =~= Seq::<Arc<S>>::empty());
        }
        while i < self.sync_sources.len()
            invariant
                i <= self.sync_sources.len(),
                sorted@ == by_rank(self.sources().take(i as int)),
                sorted@.to_multiset() == self.sources().take(i as int).to_multiset(),
                forall|a: int, b: int|
                    0 <= a < b < sorted@.len() ==> sorted@[a].rank().0 >= sorted@[b].rank().0,
            decreases self.sync_sources.len() - i,
        {
            let item = self.sync_sources[i].clone();
            let rank = item.priority().0;
            let mut at: usize = sorted.len();
            proof {
                assert(sorted@.take(at as int) =~= sorted@);
            }
            while at > 0 && sorted[at - 1].priority().0 < rank
                invariant
                    at <= sorted.len(),
                    rank == item.rank().0,
                    forall|k: int| at <= k < sorted@.len() ==> sorted@[k].rank().0 < rank,
                    ranked_place(sorted@, rank) == ranked_place(sorted@.take(at as int), rank),
                decreases at,
            {
                proof {
                    assert(sorted@.take(at as int).drop_last() =~= sorted@.take(at - 1));
                }
                at -= 1;
            }
            let ghost before = sorted@;
            proof {
                assert(sorted@.take(sorted@.len() as int) =~= sorted@);
                if at > 0 {
                    assert(before.take(at as int).last() == before[at - 1]);
                }
                assert(ranked_place(before, rank) == at);
            }
            sorted.insert(at, item);
            proof {
                assert(sorted@ =~= before.insert(at as int, item));
                assert(self.sources().take(i + 1) =~= self.sources().take(i as int).push(item));
                assert(self.sources().take(i + 1).drop_last() =~= self.sources().take(i as int));
                broadcast use vstd::seq_lib::group_to_multiset_ensures;
                crate::text::lemma_insert_multiset(before, at as int, item);
                assert forall|a: int, b: int| 0 <= a < b < sorted@.len() implies sorted@[a].rank().0
                    >= sorted@[b].rank().0 by {
                    if a < at && b == at {
                        assert(sorted@[a] == before[a]);
                        if at > 0 {
                            assert(before[at - 1].rank().0 >= rank);
                            if a < at - 1 {
                                assert(before[a].rank().0 >= before[at - 1].rank().0);
                            }
                        }
                    } else if a < at && b > at {
                        assert(sorted@[b] == before[b - 1]);
                        assert(sorted@[a] == before[a]);
                    } else if a == at {
                        assert(sorted@[b] == before[b - 1]);
                    } else if a > at {
                        assert(sorted@[a] == before[a - 1]);
                        assert(sorted@[b] == before[b - 1]);
                    } else {
                        assert(sorted@[a] == before[a]);
                        assert(sorted@[b] == before[b]);
                    }
                }
            }
            i += 1;
        }
        assert(self.sources().take(self.sync_sources.len() as int) =~= self.sources());
        sorted
    }

    /// Always `false`: the registry holds no source that needs a runtime.
    pub fn has_async_sources(&self) -> (r: bool)
        ensures
            !r,
    {
        false
    }

    /// Loads every registered source, in the order of registration. The
    /// first failure ends the walk and is returned. What a source yields,
    /// and whether it fails, is for the source to say.
    pub fn load_all(&self) -> (r: Result<Vec<SourceSnapshot>, SourceError>)
        ensures
            self.sources().len() == 0 ==> r is Ok,
            r matches Ok(snapshots) ==> snapshots@.len() == self.sources().len() && forall|i: int|
                0 <= i < snapshots@.len() ==> (#[trigger] snapshots@[i]).source_id@
                    == self.sources()[i].id_text(),
    {
        let mut snapshots: Vec<SourceSnapshot> = Vec::new();
        let mut i: usize = 0;
        while i < self.sync_sources.len()
            invariant
                i <= self.sync_sources.len(),
                snapshots@.len() == i,
                forall|j: int|
                    0 <= j < i ==> (#[trigger] snapshots@[j]).source_id@
                        == self.sources()[j].id_text(),
            decreases self.sync_sources.len() - i,
        {
            match self.sync_sources[i].load() {
                Ok(snapshot) => {
                    snapshots.push(snapshot);
                },
                Err(e) => {
                    return Err(e);
                },
            }
            i += 1;
        }
        Ok(snapshots)
    }

    /// The registered sources of one kind, in the order of registration.
    pub fn sources_of_type(&self, source_type: SourceType) -> (r: Vec<Arc<S>>)
        ensures
            r@ == self.sources().filter(|s: Arc<S>| s.kind() == source_type),
    {
        let mut out: Vec<Arc<S>> = Vec::new();
        let ghost pred = |s: Arc<S>| s.kind() == source_type;
        let mut i: usize = 0;
        proof {
            assert(self.sources().take(0) =~= Seq::<Arc<S>>::empty());
            reveal(Seq::filter);
        }
        while i < self.sync_sources.len()
            invariant
                i <= self.sync_sources.len(),
                pred == (|s: Arc<S>| s.kind() == source_type),
                out@ == self.sources().take(i as int).filter(pred),
            decreases self.sync_sources.len() - i,
        {
            proof {
                lemma_filter_step(self.sources(), i as int, pred);
            }
            if self.sync_sources[i].source_type() == source_type {
                out.push(self.sync_sources[i].clone());
            }
            i += 1;
        }
        assert(self.sources().take(self.sync_sources.len() as int) =~= self.sources());
        out
    }

    /// The sources filed under the given paths, in the order of the paths,
    /// each source once.
    pub fn sources_for_paths(&self, paths: &Vec<String>) -> (r: Vec<Arc<S>>)
        ensures
            r@ == filed_sources(self.path_index(), self.sources(), texts(paths@)),
            source_ids(r@).no_duplicates(),
            forall|k: int|
                0 <= k < r@.len() ==> self.sources().contains(#[trigger] r@[k]) && filed_among(
                    self.path_index(),
                    paths@,
                    paths@.len() as int,
                    r@[k].id_text(),
                ),
            forall|p: int|
                0 <= p < paths@.len() && self.path_index().contains_key((#[trigger] paths@[p])@)
                    && source_ids(self.sources()).contains(self.path_index()[paths@[p]@])
                    ==> source_ids(r@).contains(self.path_index()[paths@[p]@]),
    {
        let mut out: Vec<Arc<S>> = Vec::new();
        let mut i: usize = 0;
        let ghost all = texts(paths@);
        proof {
            assert(all.take(0) =~= Seq::<Seq<char>>::empty());
        }
        while i < paths.len()
            invariant
                i <= paths.len(),
                all == texts(paths@),
                out@ == filed_sources(self.path_index(), self.sources(), all.take(i as int)),
                source_ids(out@).no_duplicates(),
                forall|k: int|
                    0 <= k < out@.len() ==> self.sources().contains(#[trigger] out@[k])
                        && filed_among(self.path_index(), paths@, i as int, out@[k].id_text()),
                forall|p: int|
                    0 <= p < i && self.path_index().contains_key((#[trigger] paths@[p])@)
                        && source_ids(self.sources()).contains(self.path_index()[paths@[p]@])
                        ==> source_ids(out@).contains(self.path_index()[paths@[p]@]),
            decreases paths.len() - i,
        {
            let ghost before = out@;
            proof {
                assert(all.take(i + 1).drop_last() =~= all.take(i as int));
                assert(all.take(i + 1).last() == paths@[i as int]@);
                assert forall|k: int| 0 <= k < out@.len() implies filed_among(
                    self.path_index(),
                    paths@,
                    i + 1,
                    (#[trigger] out@[k]).id_text(),
                ) by {
                    lemma_filed_among_more(
                        self.path_index(),
                        paths@,
                        i as int,
                        i + 1,
                        out@[k].id_text(),
                    );
                }
            }
            match path_index_get(&self.path_index, paths[i].as_str()) {
                Some(id) => {
                    let mut seen = false;
                    let mut k: usize = 0;
                    while k < out.len()
                        invariant
                            k <= out.len(),
                            seen == exists|x: int| 0 <= x < k && out@[x].id_text() == id@,
                        decreases out.len() - k,
                    {
                        if crate::text::str_eq(out[k].id().as_str(), id.as_str()) {
                            seen = true;
                        }
                        k += 1;
                    }
                    proof {
                        let ids = source_ids(out@);
                        if seen {
                            let x = choose|x: int| 0 <= x < out@.len() && out@[x].id_text() == id@;
                            assert(ids[x] == id@);
                        }
                        if ids.contains(id@) {
                            let x = choose|x: int| 0 <= x < ids.len() && ids[x] == id@;
                            assert(out@[x].id_text() == id@);
                        }
                        assert(seen == ids.contains(id@));
                    }
                    if !seen {
                        let found = self.find(id.as_str());
                        proof {
                            crate::text::lemma_position_of_range(source_ids(self.sources()), id@);
                        }
                        match found {
                            Some(at) => {
                                out.push(self.sync_sources[at].clone());
                                proof {
                                    let ids = source_ids(out@);
                                    assert(ids =~= source_ids(before).push(id@));
                                    assert(source_ids(self.sources())[at as int] == id@);
                                    assert(self.sources()[at as int] == out@[before.len() as int]);
                                    assert forall|a: int, b: int|
                                        0 <= a < ids.len() && 0 <= b < ids.len() && a
                                            != b implies ids[a] != ids[b] by {
                                        if a < before.len() && b < before.len() {
                                            assert(source_ids(before)[a] != source_ids(before)[b]);
                                        } else if a < before.len() {
                                            assert(before[a].id_text() != id@);
                                        } else {
                                            assert(before[b].id_text() != id@);
                                        }
                                    }
                                    assert forall|p: int|
                                        0 <= p < i + 1 && self.path_index().contains_key(
                                            (#[trigger] paths@[p])@,
                                        ) && source_ids(self.sources()).contains(
                                            self.path_index()[paths@[p]@],
                                        ) implies source_ids(out@).contains(
                                        self.path_index()[paths@[p]@],
                                    ) by {
                                        if p < i {
                                            let t = self.path_index()[paths@[p]@];
                                            let x = choose|x: int|
                                                0 <= x < source_ids(before).len() && source_ids(
                                                    before,
                                                )[x] == t;
                                            assert(ids[x] == t);
                                        } else {
                                            assert(ids[before.len() as int] == id@);
                                        }
                                    }
                                    assert forall|k: int| 0 <= k < out@.len() implies self.sources().contains(
                                        #[trigger] out@[k],
                                    ) && filed_among(
                                        self.path_index(),
                                        paths@,
                                        i + 1,
                                        out@[k].id_text(),
                                    ) by {
                                        if k < before.len() {
                                            assert(out@[k] == before[k]);
                                            lemma_filed_among_more(
                                                self.path_index(),
                                                paths@,
                                                i as int,
                                                i + 1,
                                                before[k].id_text(),
                                            );
                                        } else {
                                            assert(files_id(
                                                self.path_index(),
                                                paths@,
                                                i as int,
                                                out@[k].id_text(),
                                            ));
                                        }
                                    }
                                }
                            },
                            None => {
                                proof {
                                    assert(!source_ids(self.sources()).contains(id@));
                                }
                            },
                        }
                    } else {
                        proof {
                            let x = choose|x: int| 0 <= x < out@.len() && out@[x].id_text() == id@;
                            assert(source_ids(out@)[x] == id@);
                        }
                    }
                },
                None => {},
            }
            i += 1;
        }
        proof {
            assert(all.take(paths.len() as int) =~= all);
        }
        out
    }

    /// Makes every registered file source forget what it has cached.
    pub fn invalidate_file(&self, _path: &str) {
        let mut i: usize = 0;
        while i < self.sync_sources.len()
            invariant
                i <= self.sync_sources.len(),
            decreases self.sync_sources.len() - i,
        {
            if self.sync_sources[i].source_type() == SourceType::File {
                self.sync_sources[i].invalidate();
            }
            i += 1;
        }
    }

    pub fn is_registered(&self, id: &SourceId) -> (r: bool)
        ensures
            r == source_ids(self.sources()).contains(id@),
    {
        proof {
            crate::text::lemma_position_of_range(source_ids(self.sources()), id@);
        }
        self.find(id.as_str()).is_some()
    }

    /// Drops the source with the identity `id`, and the path that the
    /// identity names from the index.
    pub fn unregister_sync(&mut self, id: &SourceId)
        requires
            old(self).wf(),
        ensures
            final(self).wf(),
            final(self).sources() == without_source(old(self).sources(), id@),
            !source_ids(final(self).sources()).contains(id@),
            final(self).path_index() == without_filed(old(self).path_index(), id@),
    {
        let ghost ids0 = source_ids(self.sources());
        let found = self.find(id.as_str());
        proof {
            crate::text::lemma_position_of_range(ids0, id@);
        }
        match found {
            Some(i) => {
                let _ = self.sync_sources.remove(i);
                proof {
                    let ids1 = source_ids(self.sources());
                    assert(ids1 =~= ids0.remove(i as int));
                    assert forall|a: int, b: int|
                        0 <= a < ids1.len() && 0 <= b < ids1.len() && a != b implies ids1[a]
                        != ids1[b] by {
                        let x = if a < i { a } else { a + 1 };
                        let y = if b < i { b } else { b + 1 };
                        assert(ids1[a] == ids0[x] && ids1[b] == ids0[y]);
                    }
                    assert forall|a: int| 0 <= a < ids1.len() implies ids1[a] != id@ by {
                        let x = if a < i { a } else { a + 1 };
                        assert(ids1[a] == ids0[x]);
                        assert(ids0[i as int] == id@);
                    }
                }
            },
            None => {},
        }
        match strip_prefix(id.as_str(), "file:") {
            Some(path) => {
                path_index_remove(&mut self.path_index, path.as_str());
            },
            None => {},
        }
    }

    /// The paths under which file sources are filed, each once, in no
    /// particular order.
    pub fn registered_file_paths(&self) -> (r: Vec<String>)
        ensures
            texts(r@).to_set() == self.path_index().dom(),
            texts(r@).no_duplicates(),
    {
        path_index_keys(&self.path_index)
    }

    pub fn source_count(&self) -> (n: usize)
        ensures
            n == self.sources().len(),
    {
        self.sync_sources.len()
    }
}

impl<S: EnvSource> Default for SourceRegistry<S> {
    fn default() -> (r: Self)
        ensures
            r.wf(),
            r.sources().len() == 0,
    {
        SourceRegistry::new()
    }
}

/// Filtering one item more either adds the item or changes nothing.
pub proof fn lemma_filter_step<T>(s: Seq<T>, i: int, pred: spec_fn(T) -> bool)
    requires
        0 <= i < s.len(),
    ensures
        s.take(i + 1).filter(pred) == if pred(s[i]) {
            s.take(i).filter(pred).push(s[i])
        } else {
            s.take(i).filter(pred)
        },
{
    assert(s.take(i + 1).drop_last() =~= s.take(i));
    assert(s.take(i + 1).last() == s[i]);
    reveal(Seq::filter);
}

} // verus!
