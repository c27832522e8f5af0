//! Which variable refers to which, and whether the references run in a
//! circle.

use vstd::prelude::*;
use crate::text::{lemma_position_of_first, lemma_position_of_range, position_of, str_eq, texts};

verus! {

/// One reference: the value of `from` names `to`.
#[derive(Debug)]
pub struct DependencyEdge {
    pub from: String,
    pub to: String,
    pub span: Option<(u32, u32)>,
}

impl Clone for DependencyEdge {
    fn clone(&self) -> (r: Self)
        ensures
            r.from@ == self.from@,
            r.to@ == self.to@,
            r.span == self.span,
    {
        DependencyEdge { from: self.from.clone(), to: self.to.clone(), span: self.span }
    }
}

/// A reference as a pair: the referring key, then the key it names.
pub type EdgeView = (Seq<char>, Seq<char>);

pub open spec fn edge_views(v: Seq<DependencyEdge>) -> Seq<EdgeView> {
    Seq::new(v.len(), |i: int| (v[i].from@, v[i].to@))
}

/// Whether `a` refers to `b`.
pub open spec fn has_edge(g: Seq<EdgeView>, a: Seq<char>, b: Seq<char>) -> bool {
    exists|i: int| 0 <= i < g.len() && #[trigger] g[i] == (a, b)
}

/// Whether each key of `w` refers to the next.
pub open spec fn is_walk(g: Seq<EdgeView>, w: Seq<Seq<char>>) -> bool {
    forall|i: int| 0 <= i < w.len() - 1 ==> has_edge(g, #[trigger] w[i], w[i + 1])
}

/// Whether the last key of `w` stands in `w` before.
pub open spec fn revisits(w: Seq<Seq<char>>) -> bool {
    w.len() >= 2 && exists|j: int| 0 <= j < w.len() - 1 && #[trigger] w[j] == w.last()
}

/// Whether, following references from `start`, some key can be met twice.
pub open spec fn reaches_cycle(g: Seq<EdgeView>, start: Seq<char>) -> bool {
    exists|w: Seq<Seq<char>>| #[trigger] is_walk(g, w) && w.len() >= 2 && w[0] == start && revisits(w)
}

/// Whether `p` leads from `start` along references to a key that refers back
/// to a key of `p`, without meeting a key twice on the way.
pub open spec fn is_cycle_path(g: Seq<EdgeView>, start: Seq<char>, p: Seq<Seq<char>>) -> bool {
    &&& p.len() >= 1
    &&& p[0] == start
    &&& is_walk(g, p)
    &&& p.no_duplicates()
    &&& exists|j: int| 0 <= j < p.len() && has_edge(g, p.last(), #[trigger] p[j])
}

/// The keys that `key` refers to, in the order the references were added.
pub open spec fn dependencies_of(g: Seq<EdgeView>, key: Seq<char>) -> Seq<Seq<char>>
    decreases g.len(),
{
    if g.len() == 0 {
        Seq::empty()
    } else if g.last().0 == key {
        dependencies_of(g.drop_last(), key).push(g.last().1)
    } else {
        dependencies_of(g.drop_last(), key)
    }
}

/// The mark of a key during the search: `true` while the search is below
/// it, `false` once it is done with it.
pub type MarkView = (Seq<char>, bool);

pub open spec fn mark_views(v: Seq<(String, bool)>) -> Seq<MarkView> {
    Seq::new(v.len(), |i: int| (v[i].0@, v[i].1))
}

pub open spec fn has_mark(marks: Seq<MarkView>, key: Seq<char>, value: bool) -> bool {
    exists|i: int| 0 <= i < marks.len() && #[trigger] marks[i] == (key, value)
}

pub open spec fn is_marked(marks: Seq<MarkView>, key: Seq<char>) -> bool {
    has_mark(marks, key, true) || has_mark(marks, key, false)
}

/// The keys that have marks, in order.
pub open spec fn mark_keys(marks: Seq<MarkView>) -> Seq<Seq<char>> {
    Seq::new(marks.len(), |i: int| marks[i].0)
}

/// The mark of a key, if it has one.
pub open spec fn mark_of(marks: Seq<MarkView>, key: Seq<char>) -> Option<bool> {
    if position_of(mark_keys(marks), key) >= 0 {
        Some(marks[position_of(mark_keys(marks), key)].1)
    } else {
        None
    }
}

/// The marks with the mark of `key` set to `value`.
pub open spec fn with_mark(marks: Seq<MarkView>, key: Seq<char>, value: bool) -> Seq<MarkView> {
    if position_of(mark_keys(marks), key) >= 0 {
        marks.update(position_of(mark_keys(marks), key), (key, value))
    } else {
        marks.push((key, value))
    }
}

/// The marks and the path of a search.
pub struct SearchState {
    pub marks: Seq<MarkView>,
    pub path: Seq<Seq<char>>,
}

/// The depth-first search from `current`, as deep as `fuel` allows. A key
/// that has a mark is not entered again: the search has found a circle where
/// the key is on the path, and nothing where it is finished. A key without
/// mark is marked as on the path and entered: the keys it refers to are
/// searched in the order of the references. The first circle found ends the
/// search, with the path as it is. Where none is found the key leaves the
/// path and is marked as finished.
pub open spec fn search(g: Seq<EdgeView>, fuel: nat, current: Seq<char>, state: SearchState) -> (
    bool,
    SearchState,
)
    decreases fuel, 0nat,
{
    match mark_of(state.marks, current) {
        Some(in_path) => (in_path, state),
        None => if fuel == 0 {
            (false, state)
        } else {
            let entered = SearchState {
                marks: state.marks.push((current, true)),
                path: state.path.push(current),
            };
            let below = search_edges(g, (fuel - 1) as nat, current, 0, entered);
            if below.0 {
                below
            } else {
                (
                    false,
                    SearchState {
                        marks: with_mark(below.1.marks, current, false),
                        path: below.1.path.drop_last(),
                    },
                )
            }
        },
    }
}

/// The search through the references of `current` from place `from` on.
pub open spec fn search_edges(
    g: Seq<EdgeView>,
    fuel: nat,
    current: Seq<char>,
    from: int,
    state: SearchState,
) -> (bool, SearchState)
    decreases fuel, 1 + g.len() - from,
{
    if from < 0 || from >= g.len() {
        (false, state)
    } else if g[from].0 == current {
        let below = search(g, fuel, g[from].1, state);
        if below.0 {
            below
        } else {
            search_edges(g, fuel, current, from + 1, below.1)
        }
    } else {
        search_edges(g, fuel, current, from + 1, state)
    }
}

/// The path that the search from `start` reports: the path at the moment
/// the first circle is found, empty where none is found.
pub open spec fn cycle_path(g: Seq<EdgeView>, start: Seq<char>) -> Seq<Seq<char>> {
    let found = search(
        g,
        g.len() + 1,
        start,
        SearchState { marks: Seq::empty(), path: Seq::empty() },
    );
    if found.0 {
        found.1.path
    } else {
        Seq::empty()
    }
}

/// What the search knows of the keys it has finished: each has a rank, and
/// every reference from a finished key leads to one of lower rank.
pub struct Ranks {
    pub rank: Map<Seq<char>, nat>,
    pub bound: nat,
}

/// What holds between the calls of the search.
pub open spec fn search_inv(
    g: Seq<EdgeView>,
    marks: Seq<MarkView>,
    path: Seq<Seq<char>>,
    ranks: Ranks,
) -> bool {
    &&& forall|i: int, j: int|
        0 <= i < marks.len() && 0 <= j < marks.len() && (#[trigger] marks[i]).0 == (
        #[trigger] marks[j]).0 ==> i == j
    &&& forall|k: Seq<char>| has_mark(marks, k, true) <==> #[trigger] path.contains(k)
    &&& path.no_duplicates()
    &&& is_walk(g, path)
    &&& forall|i: int|
        0 <= i < g.len() && has_mark(marks, (#[trigger] g[i]).0, false) ==> has_mark(
            marks,
            g[i].1,
            false,
        ) && ranks.rank[g[i].1] < ranks.rank[g[i].0]
    &&& forall|k: Seq<char>| #[trigger] has_mark(marks, k, false) ==> ranks.rank[k] < ranks.bound
}

/// From a finished key the search can only reach finished keys of lower
/// rank, so no walk from it meets a key twice.
proof fn lemma_finished_walk(
    g: Seq<EdgeView>,
    marks: Seq<MarkView>,
    ranks: Ranks,
    w: Seq<Seq<char>>,
    i: int,
)
    requires
        search_inv(g, marks, Seq::empty(), ranks),
        is_walk(g, w),
        w.len() >= 1,
        has_mark(marks, w[0], false),
        0 <= i < w.len(),
    ensures
        has_mark(marks, w[i], false),
        forall|j: int| 0 <= j < i ==> ranks.rank[w[i]] < ranks.rank[#[trigger] w[j]],
    decreases i,
{
    if i > 0 {
        lemma_finished_walk(g, marks, ranks, w, i - 1);
        assert(has_edge(g, w[i - 1], w[i]));
        let e = choose|e: int| 0 <= e < g.len() && g[e] == (w[i - 1], w[i]);
        assert(has_mark(marks, g[e].0, false));
    }
}

/// Where the search has finished `start` and is below no key, no walk from
/// `start` meets a key twice.
proof fn lemma_finished_has_no_cycle(
    g: Seq<EdgeView>,
    marks: Seq<MarkView>,
    ranks: Ranks,
    start: Seq<char>,
)
    requires
        search_inv(g, marks, Seq::empty(), ranks),
        has_mark(marks, start, false),
    ensures
        !reaches_cycle(g, start),
{
    if reaches_cycle(g, start) {
        let w = choose|w: Seq<Seq<char>>| #[trigger]
            is_walk(g, w) && w.len() >= 2 && w[0] == start && revisits(w);
        let j = choose|j: int| 0 <= j < w.len() - 1 && #[trigger] w[j] == w.last();
        lemma_finished_walk(g, marks, ranks, w, w.len() - 1);
        assert(ranks.rank[w[w.len() - 1]] < ranks.rank[w[j]]);
    }
}

/// A path that the search reports shows that a key can be met twice.
proof fn lemma_cycle_path_reaches_cycle(g: Seq<EdgeView>, start: Seq<char>, p: Seq<Seq<char>>)
    requires
        is_cycle_path(g, start, p),
    ensures
        reaches_cycle(g, start),
{
    let j = choose|j: int| 0 <= j < p.len() && has_edge(g, p.last(), #[trigger] p[j]);
    let w = p.push(p[j]);
    assert forall|i: int| 0 <= i < w.len() - 1 implies has_edge(g, #[trigger] w[i], w[i + 1]) by {
        if i < p.len() - 1 {
            assert(w[i] == p[i]);
            assert(w[i + 1] == p[i + 1]);
        } else {
            assert(w[i] == p.last());
        }
    }
    assert(w[j] == w.last());
    assert(is_walk(g, w) && w.len() >= 2 && w[0] == start && revisits(w));
}

/// The mark of `key`, if it has one.
fn find_mark(visited: &Vec<(String, bool)>, key: &str) -> (r: Option<usize>)
    ensures
        match r {
            Some(i) => i < visited.len() && visited@[i as int].0@ == key@ && position_of(
                mark_keys(mark_views(visited@)),
                key@,
            ) == i && mark_of(mark_views(visited@), key@) == Some(visited@[i as int].1),
            None => !is_marked(mark_views(visited@), key@) && mark_of(mark_views(visited@), key@)
                is None,
        },
{
    let ghost keys = mark_keys(mark_views(visited@));
    let mut i: usize = 0;
    while i < visited.len()
        invariant
            i <= visited.len(),
            keys == mark_keys(mark_views(visited@)),
            forall|j: int| 0 <= j < i ==> visited@[j].0@ != key@,
            forall|j: int| 0 <= j < i ==> keys[j] != key@,
        decreases visited.len() - i,
    {
        if str_eq(visited[i].0.as_str(), key) {
            proof {
                assert(keys[i as int] == key@);
                lemma_position_of_first(keys, key@, i as int);
            }
            return Some(i);
        }
        proof {
            assert(keys[i as int] == visited@[i as int].0@);
        }
        i += 1;
    }
    proof {
        let marks = mark_views(visited@);
        assert forall|j: int| 0 <= j < marks.len() implies (#[trigger] marks[j]).0 != key@ by {
            assert(marks[j].0 == visited@[j].0@);
        }
        assert(!keys.contains(key@));
    }
    None
}

/// The references between variables.
#[derive(Debug)]
pub struct DependencyGraph {
    edges: Vec<DependencyEdge>,
}

impl DependencyGraph {
    /// The references, in the order they were added.
    pub closed spec fn edges(&self) -> Seq<EdgeView> {
        edge_views(self.edges@)
    }

    pub fn new() -> (r: Self)
        ensures
            r.edges() == Seq::<EdgeView>::empty(),
    {
        let r = DependencyGraph { edges: Vec::new() };
        assert(r.edges() =~= Seq::<EdgeView>::empty());
        r
    }

    /// Adds the reference from `from` to `to`. A reference that is there
    /// already is added once more.
    pub fn add_edge(&mut self, from: String, to: String, span: Option<(u32, u32)>)
        ensures
            final(self).edges() == old(self).edges().push((from@, to@)),
    {
        self.edges.push(DependencyEdge { from, to, span });
        assert(self.edges() =~= old(self).edges().push((from@, to@)));
    }

    /// Searches for a circle of references that can be reached from `start`.
    /// The path along which one was found is returned; it is empty where
    /// there is none.
    pub fn detect_cycle(&self, start: &str) -> (r: Vec<String>)
        ensures
            texts(r@) == cycle_path(self.edges(), start@),
            r@.len() > 0 <==> reaches_cycle(self.edges(), start@),
            r@.len() > 0 ==> is_cycle_path(self.edges(), start@, texts(r@)),
    {
        let mut visited: Vec<(String, bool)> = Vec::new();
        let mut path: Vec<String> = Vec::new();
        self.detect_cycle_with_state(start, &mut visited, &mut path)
    }

    /// As `detect_cycle`, with buffers of the caller's. What they hold
    /// before is dropped; afterwards `path` is empty.
    pub fn detect_cycle_with_state(
        &self,
        start: &str,
        visited: &mut Vec<(String, bool)>,
        path: &mut Vec<String>,
    ) -> (r: Vec<String>)
        ensures
            texts(r@) == cycle_path(self.edges(), start@),
            r@.len() > 0 <==> reaches_cycle(self.edges(), start@),
            r@.len() > 0 ==> is_cycle_path(self.edges(), start@, texts(r@)),
            final(path)@.len() == 0,
    {
        visited.clear();
        path.clear();
        let ghost ranks = Ranks { rank: Map::empty(), bound: 0 };
        let ghost fuel = self.edges().len() + 1;
        proof {
            assert(texts(path@) =~= Seq::<Seq<char>>::empty());
            assert(mark_views(visited@) =~= Seq::<MarkView>::empty());
            self.lemma_sources_few();
            self.lemma_unmarked_shrinks(Seq::empty(), mark_views(visited@));
            assert(self.unmarked_sources(mark_views(visited@)).subset_of(self.sources()));
            self.lemma_sources_finite();
            vstd::set_lib::lemma_len_subset(
                self.unmarked_sources(mark_views(visited@)),
                self.sources(),
            );
        }
        let found = self.dfs_detect_cycle(start, visited, path, Ghost(ranks), Ghost(fuel));
        if found.0 {
            let mut out: Vec<String> = Vec::new();
            std::mem::swap(path, &mut out);
            proof {
                lemma_cycle_path_reaches_cycle(self.edges(), start@, texts(out@));
            }
            out
        } else {
            proof {
                assert(texts(path@) =~= Seq::<Seq<char>>::empty());
                lemma_finished_has_no_cycle(
                    self.edges(),
                    mark_views(visited@),
                    found.1@,
                    start@,
                );
            }
            path.clear();
            let none: Vec<String> = Vec::new();
            proof {
                assert(texts(none@) =~= Seq::<Seq<char>>::empty());
            }
            none
        }
    }

    /// One step of the depth-first search.
    fn dfs_detect_cycle(
        &self,
        current: &str,
        visited: &mut Vec<(String, bool)>,
        path: &mut Vec<String>,
        Ghost(ranks): Ghost<Ranks>,
        Ghost(fuel): Ghost<nat>,
    ) -> (r: (bool, Ghost<Ranks>))
        requires
            search_inv(self.edges(), mark_views(old(visited)@), texts(old(path)@), ranks),
            old(path)@.len() > 0 ==> has_edge(self.edges(), old(path)@.last()@, current@),
            self.unmarked_sources(mark_views(old(visited)@)).len() < fuel,
        ensures
            (
                r.0,
                SearchState { marks: mark_views(final(visited)@), path: texts(final(path)@) },
            ) == search(
                self.edges(),
                fuel,
                current@,
                SearchState { marks: mark_views(old(visited)@), path: texts(old(path)@) },
            ),
            r.0 ==> {
                &&& texts(final(path)@).len() >= 1
                &&& texts(old(path)@).is_prefix_of(texts(final(path)@))
                &&& old(path)@.len() == 0 ==> texts(final(path)@)[0] == current@
                &&& is_walk(self.edges(), texts(final(path)@))
                &&& texts(final(path)@).no_duplicates()
                &&& exists|j: int|
                    0 <= j < final(path)@.len() && has_edge(
                        self.edges(),
                        texts(final(path)@).last(),
                        #[trigger] texts(final(path)@)[j],
                    )
            },
            !r.0 ==> {
                &&& texts(final(path)@) == texts(old(path)@)
                &&& search_inv(
                    self.edges(),
                    mark_views(final(visited)@),
                    texts(final(path)@),
                    r.1@,
                )
                &&& has_mark(mark_views(final(visited)@), current@, false)
                &&& forall|k: Seq<char>| #[trigger]
                    has_mark(mark_views(old(visited)@), k, false) ==> has_mark(
                        mark_views(final(visited)@),
                        k,
                        false,
                    )
                &&& forall|k: Seq<char>| #[trigger]
                    is_marked(mark_views(old(visited)@), k) ==> is_marked(
                        mark_views(final(visited)@),
                        k,
                    )
            },
        decreases self.unmarked_sources(mark_views(old(visited)@)).len(),
    {
        let ghost g = self.edges();
        let ghost marks0 = mark_views(visited@);
        let ghost path0 = texts(path@);
        match find_mark(visited, current) {
            Some(i) => {
                let in_path = visited[i].1;
                proof {
                    assert(marks0[i as int] == (current@, in_path));
                    if in_path {
                        assert(has_mark(marks0, current@, true));
                        assert(path0.contains(current@));
                        let j = choose|j: int| 0 <= j < path0.len() && path0[j] == current@;
                        assert(has_edge(g, path0.last(), path0[j]));
                    }
                }
                return (in_path, Ghost(ranks));
            },
            None => {},
        }
        visited.push((current.to_owned(), true));
        path.push(current.to_owned());
        let ghost marks1 = mark_views(visited@);
        let ghost path1 = texts(path@);
        let ghost state0 = SearchState { marks: marks0, path: path0 };
        let ghost entered = SearchState { marks: marks1, path: path1 };
        let ghost below = (fuel - 1) as nat;
        proof {
            assert(marks1 =~= marks0.push((current@, true)));
            assert(path1 =~= path0.push(current@));
            lemma_enter(g, marks0, path0, ranks, current@);
            assert forall|k: Seq<char>| #[trigger] has_mark(marks0, k, false) implies has_mark(
                marks1,
                k,
                false,
            ) by {
                let w = choose|w: int| 0 <= w < marks0.len() && marks0[w] == (k, false);
                assert(marks1[w] == (k, false));
            }
            assert(has_mark(marks1, current@, true)) by {
                assert(marks1[marks0.len() as int] == (current@, true));
            }
            assert forall|k: Seq<char>| #[trigger] is_marked(marks0, k) implies is_marked(
                marks1,
                k,
            ) by {
                if has_mark(marks0, k, true) {
                    let w = choose|w: int| 0 <= w < marks0.len() && marks0[w] == (k, true);
                    assert(marks1[w] == (k, true));
                } else {
                    let w = choose|w: int| 0 <= w < marks0.len() && marks0[w] == (k, false);
                    assert(marks1[w] == (k, false));
                }
            }
            self.lemma_unmarked_shrinks(marks0, marks1);
            if self.sources().contains(current@) {
                self.lemma_sources_finite();
                let a = self.unmarked_sources(marks1);
                let b = self.unmarked_sources(marks0);
                assert(b.contains(current@));
                assert(!a.contains(current@));
                assert(b.subset_of(self.sources()));
                vstd::set_lib::lemma_len_subset(b, self.sources());
                assert(a.subset_of(b.remove(current@)));
                vstd::set_lib::lemma_len_subset(a, b.remove(current@));
            } else {
                assert forall|e: int| 0 <= e < g.len() implies (#[trigger] g[e]).0 != current@ by {
                    if g[e].0 == current@ {
                        assert(self.sources().contains(current@));
                    }
                }
            }
        }
        let mut ranks_now: Ghost<Ranks> = Ghost(ranks);
        let mut i: usize = 0;
        while i < self.edges.len()
            invariant
                i <= self.edges.len(),
                g == self.edges(),
                marks0 == mark_views(old(visited)@),
                path0 == texts(old(path)@),
                state0 == (SearchState { marks: marks0, path: path0 }),
                entered == (SearchState { marks: marks0.push((current@, true)), path: path1 }),
                mark_of(marks0, current@) is None,
                fuel > 0,
                below == fuel - 1,
                self.unmarked_sources(marks0).len() < fuel,
                search_edges(g, below, current@, 0, entered) == search_edges(
                    g,
                    below,
                    current@,
                    i as int,
                    SearchState { marks: mark_views(visited@), path: texts(path@) },
                ),
                path1 == path0.push(current@),
                texts(path@) == path1,
                search_inv(g, mark_views(visited@), path1, ranks_now@),
                forall|e: int|
                    0 <= e < i && (#[trigger] g[e]).0 == current@ ==> has_mark(
                        mark_views(visited@),
                        g[e].1,
                        false,
                    ),
                forall|k: Seq<char>| #[trigger]
                    has_mark(marks0, k, false) ==> has_mark(mark_views(visited@), k, false),
                forall|k: Seq<char>| #[trigger]
                    is_marked(marks1, k) ==> is_marked(mark_views(visited@), k),
                self.unmarked_sources(mark_views(visited@)).len() < self.unmarked_sources(
                    marks0,
                ).len() || !self.sources().contains(current@),
                !self.sources().contains(current@) ==> forall|e: int|
                    0 <= e < g.len() ==> (#[trigger] g[e]).0 != current@,
            decreases self.edges.len() - i,
        {
            if str_eq(self.edges[i].from.as_str(), current) {
                let ghost marks_before = mark_views(visited@);
                proof {
                    assert(g[i as int] == (current@, self.edges@[i as int].to@));
                    assert(path1.last() == current@);
                    assert(self.sources().contains(current@)) by {
                        assert(g[i as int].0 == current@);
                    }
                }
                let ghost here = SearchState { marks: mark_views(visited@), path: texts(path@) };
                let sub = self.dfs_detect_cycle(
                    self.edges[i].to.as_str(),
                    visited,
                    path,
                    ranks_now,
                    Ghost(below),
                );
                proof {
                    assert(g[i as int].1 == self.edges@[i as int].to@);
                    assert(search_edges(g, below, current@, i as int, here) == if sub.0 {
                        (
                            true,
                            SearchState { marks: mark_views(visited@), path: texts(path@) },
                        )
                    } else {
                        search_edges(
                            g,
                            below,
                            current@,
                            i + 1,
                            SearchState { marks: mark_views(visited@), path: texts(path@) },
                        )
                    });
                }
                if sub.0 {
                    proof {
                        let p = texts(path@);
                        assert(path1.is_prefix_of(p));
                        assert(path1 =~= p.subrange(0, path1.len() as int));
                        assert forall|k: int| 0 <= k < path1.len() implies path1[k] == p[k] by {
                            assert(p.subrange(0, path1.len() as int)[k] == p[k]);
                        }
                        assert(path0 =~= p.subrange(0, path0.len() as int)) by {
                            assert forall|k: int| 0 <= k < path0.len() implies path0[k] == p[k] by {
                                assert(path1[k] == path0[k]);
                            }
                        }
                        assert(path0.is_prefix_of(p));
                        if path0.len() == 0 {
                            assert(p[0] == path1[0]);
                            assert(path1[0] == current@);
                        }
                    }
                    return (true, sub.1);
                }
                ranks_now = sub.1;
                proof {
                    let marks_after = mark_views(visited@);
                    self.lemma_unmarked_shrinks(marks_before, marks_after);
                    assert forall|e: int|
                        0 <= e < i + 1 && (#[trigger] g[e]).0 == current@ implies has_mark(
                        marks_after,
                        g[e].1,
                        false,
                    ) by {
                        if e < i {
                            assert(has_mark(marks_before, g[e].1, false));
                        }
                    }
                }
            } else {
                proof {
                    assert(g[i as int].0 == self.edges@[i as int].from@);
                }
            }
            i += 1;
        }
        let ghost full = path@;
        let _ = path.pop();
        proof {
            assert(path@ =~= full.drop_last());
            assert(texts(path@) =~= path1.drop_last());
            assert(path1.drop_last() =~= path0);
        }
        let ghost marks2 = mark_views(visited@);
        let position = find_mark(visited, current);
        proof {
            assert(is_marked(marks1, current@)) by {
                assert(marks1[marks0.len() as int] == (current@, true));
                assert(has_mark(marks1, current@, true));
            }
            assert(is_marked(marks2, current@));
        }
        let at = position.unwrap();
        let ghost after_edges = SearchState { marks: marks2, path: path1 };
        visited.set(at, (current.to_owned(), false));
        let ghost done = Ranks {
            rank: ranks_now@.rank.insert(current@, ranks_now@.bound),
            bound: ranks_now@.bound + 1,
        };
        proof {
            let marks3 = mark_views(visited@);
            assert(marks3 =~= marks2.update(at as int, (current@, false)));
            assert(texts(path@) =~= path0);
            lemma_leave(g, marks2, path0, ranks_now@, current@, at as int);
            assert forall|k: Seq<char>| #[trigger]
                has_mark(marks0, k, false) implies has_mark(marks3, k, false) by {
                let w = choose|w: int| 0 <= w < marks2.len() && marks2[w] == (k, false);
                assert(marks2[at as int].0 == current@);
                if w == at as int {
                    assert(marks3[w] == (k, false));
                } else {
                    assert(marks3[w] == (k, false));
                }
            }
            assert forall|k: Seq<char>| #[trigger]
                is_marked(marks0, k) implies is_marked(marks3, k) by {
                assert(is_marked(marks1, k)) by {
                    if has_mark(marks0, k, true) {
                        let w = choose|w: int| 0 <= w < marks0.len() && marks0[w] == (k, true);
                        assert(marks1[w] == (k, true));
                    } else {
                        let w = choose|w: int| 0 <= w < marks0.len() && marks0[w] == (k, false);
                        assert(marks1[w] == (k, false));
                    }
                }
                assert(is_marked(marks2, k));
                if has_mark(marks2, k, true) {
                    let w = choose|w: int| 0 <= w < marks2.len() && marks2[w] == (k, true);
                    if w == at as int {
                        assert(marks3[w] == (k, false));
                    } else {
                        assert(marks3[w] == (k, true));
                    }
                } else {
                    let w = choose|w: int| 0 <= w < marks2.len() && marks2[w] == (k, false);
                    assert(marks3[w].0 == k);
                    if w == at as int {
                        assert(marks3[w] == (k, false));
                    } else {
                        assert(marks3[w] == (k, false));
                    }
                }
            }
            assert(marks3[at as int] == (current@, false));
            assert(marks3 == with_mark(marks2, current@, false));
            assert(search_edges(g, below, current@, 0, entered) == (false, after_edges));
        }
        (false, Ghost(done))
    }

    /// The keys that refer to another key.
    pub closed spec fn sources(&self) -> Set<Seq<char>> {
        Set::new(
            |k: Seq<char>|
                exists|i: int| 0 <= i < self.edges().len() && (#[trigger] self.edges()[i]).0 == k,
        )
    }

    /// The referring keys that the search has not met yet.
    pub closed spec fn unmarked_sources(&self, marks: Seq<MarkView>) -> Set<Seq<char>> {
        self.sources().filter(|k: Seq<char>| !is_marked(marks, k))
    }

    /// The keys that `key` refers to, in the order the references were added.
    pub fn get_dependencies(&self, key: &str) -> (r: Vec<String>)
        ensures
            texts(r@) == dependencies_of(self.edges(), key@),
    {
        let mut out: Vec<String> = Vec::new();
        let mut i: usize = 0;
        proof {
            assert(self.edges().take(0) =~= Seq::<EdgeView>::empty());
            assert(texts(out@) =~= Seq::<Seq<char>>::empty());
        }
        while i < self.edges.len()
            invariant
                i <= self.edges.len(),
                texts(out@) == dependencies_of(self.edges().take(i as int), key@),
            decreases self.edges.len() - i,
        {
            let ghost before = self.edges().take(i as int);
            let ghost after = self.edges().take(i + 1);
            proof {
                assert(after.drop_last() =~= before);
                assert(after.last() == (self.edges@[i as int].from@, self.edges@[i as int].to@));
            }
            if str_eq(self.edges[i].from.as_str(), key) {
                let ghost old_out = texts(out@);
                out.push(self.edges[i].to.clone());
                assert(texts(out@) =~= old_out.push(self.edges@[i as int].to@));
            }
            i += 1;
        }
        assert(self.edges().take(self.edges.len() as int) =~= self.edges());
        out
    }

    /// Drops every reference.
    pub fn clear(&mut self)
        ensures
            final(self).edges() == Seq::<EdgeView>::empty(),
    {
        self.edges.clear();
        assert(self.edges() =~= Seq::<EdgeView>::empty());
    }

    /// Marking more keys leaves fewer referring keys unmarked, or as many.
    proof fn lemma_unmarked_shrinks(&self, before: Seq<MarkView>, after: Seq<MarkView>)
        requires
            forall|k: Seq<char>| #[trigger] is_marked(before, k) ==> is_marked(after, k),
        ensures
            self.unmarked_sources(after).len() <= self.unmarked_sources(before).len(),
            self.unmarked_sources(after).subset_of(self.unmarked_sources(before)),
    {
        self.lemma_sources_finite();
        let a = self.unmarked_sources(after);
        let b = self.unmarked_sources(before);
        assert(a.subset_of(b));
        assert(b.subset_of(self.sources()));
        vstd::set_lib::lemma_len_subset(b, self.sources());
        vstd::set_lib::lemma_len_subset(a, b);
    }

    /// There are no more referring keys than references.
    proof fn lemma_sources_few(&self)
        ensures
            self.sources().len() <= self.edges().len(),
    {
        let g = self.edges();
        let keys = Seq::new(g.len(), |i: int| g[i].0);
        assert forall|k: Seq<char>| self.sources().contains(k) implies keys.to_set().contains(
            k,
        ) by {
            let i = choose|i: int| 0 <= i < g.len() && (#[trigger] g[i]).0 == k;
            assert(keys[i] == k);
        }
        assert(self.sources().subset_of(keys.to_set()));
        vstd::seq_lib::seq_to_set_is_finite(keys);
        vstd::set_lib::lemma_len_subset(self.sources(), keys.to_set());
        keys.lemma_cardinality_of_set();
    }

    proof fn lemma_sources_finite(&self)
        ensures
            self.sources().finite(),
    {
        let g = self.edges();
        let keys = Seq::new(g.len(), |i: int| g[i].0);
        assert forall|k: Seq<char>| self.sources().contains(k) implies keys.to_set().contains(
            k,
        ) by {
            let i = choose|i: int| 0 <= i < g.len() && (#[trigger] g[i]).0 == k;
            assert(keys[i] == k);
        }
        assert(self.sources().subset_of(keys.to_set()));
        vstd::seq_lib::seq_to_set_is_finite(keys);
        vstd::set_lib::lemma_len_subset(self.sources(), keys.to_set());
    }
}

impl Default for DependencyGraph {
    fn default() -> (r: Self)
        ensures
            r.edges() == Seq::<EdgeView>::empty(),
    {
        DependencyGraph::new()
    }
}

/// Entering a key that has no mark keeps what holds between the calls.
proof fn lemma_enter(
    g: Seq<EdgeView>,
    marks: Seq<MarkView>,
    path: Seq<Seq<char>>,
    ranks: Ranks,
    current: Seq<char>,
)
    requires
        search_inv(g, marks, path, ranks),
        !is_marked(marks, current),
        path.len() > 0 ==> has_edge(g, path.last(), current),
    ensures
        search_inv(g, marks.push((current, true)), path.push(current), ranks),
{
    let marks1 = marks.push((current, true));
    let path1 = path.push(current);
    assert forall|i: int, j: int|
        0 <= i < marks1.len() && 0 <= j < marks1.len() && (#[trigger] marks1[i]).0 == (
        #[trigger] marks1[j]).0 implies i == j by {
        if i < marks.len() && j < marks.len() {
            assert(marks1[i] == marks[i] && marks1[j] == marks[j]);
        } else if i < marks.len() {
            assert(marks[i] == (current, marks[i].1));
            assert(has_mark(marks, current, marks[i].1));
        } else if j < marks.len() {
            assert(marks[j] == (current, marks[j].1));
            assert(has_mark(marks, current, marks[j].1));
        }
    }
    assert forall|k: Seq<char>| has_mark(marks1, k, true) <==> #[trigger] path1.contains(k) by {
        if has_mark(marks1, k, true) {
            let w = choose|w: int| 0 <= w < marks1.len() && marks1[w] == (k, true);
            if w < marks.len() {
                assert(marks[w] == (k, true));
                assert(has_mark(marks, k, true));
                assert(path.contains(k));
                let x = choose|x: int| 0 <= x < path.len() && path[x] == k;
                assert(path1[x] == k);
            } else {
                assert(path1[path.len() as int] == k);
            }
        }
        if path1.contains(k) {
            let x = choose|x: int| 0 <= x < path1.len() && path1[x] == k;
            if x < path.len() {
                assert(path[x] == k);
                assert(path.contains(k));
                let w = choose|w: int| 0 <= w < marks.len() && marks[w] == (k, true);
                assert(marks1[w] == (k, true));
            } else {
                assert(marks1[marks.len() as int] == (k, true));
            }
        }
    }
    assert(path1.no_duplicates()) by {
        assert forall|i: int, j: int|
            0 <= i < path1.len() && 0 <= j < path1.len() && i != j implies path1[i]
            != path1[j] by {
            if i < path.len() && j < path.len() {
            } else if i < path.len() {
                if path[i] == current {
                    assert(path.contains(current));
                    assert(has_mark(marks, current, true));
                }
            } else if j < path.len() {
                if path[j] == current {
                    assert(path.contains(current));
                    assert(has_mark(marks, current, true));
                }
            }
        }
    }
    assert forall|i: int| 0 <= i < path1.len() - 1 implies has_edge(
        g,
        #[trigger] path1[i],
        path1[i + 1],
    ) by {
        if i < path.len() - 1 {
            assert(has_edge(g, path[i], path[i + 1]));
        } else {
            assert(path1[i] == path.last());
        }
    }
    assert forall|i: int|
        0 <= i < g.len() && has_mark(marks1, (#[trigger] g[i]).0, false) implies has_mark(
        marks1,
        g[i].1,
        false,
    ) && ranks.rank[g[i].1] < ranks.rank[g[i].0] by {
        let w = choose|w: int| 0 <= w < marks1.len() && marks1[w] == (g[i].0, false);
        assert(marks[w] == (g[i].0, false));
        assert(has_mark(marks, g[i].0, false));
        let v = choose|v: int| 0 <= v < marks.len() && marks[v] == (g[i].1, false);
        assert(marks1[v] == (g[i].1, false));
    }
    assert forall|k: Seq<char>| #[trigger] has_mark(marks1, k, false) implies ranks.rank[k]
        < ranks.bound by {
        let w = choose|w: int| 0 <= w < marks1.len() && marks1[w] == (k, false);
        assert(marks[w] == (k, false));
        assert(has_mark(marks, k, false));
    }
}

/// Leaving a key of which every reference leads to a finished key keeps
/// what holds between the calls, with the key finished.
proof fn lemma_leave(
    g: Seq<EdgeView>,
    marks: Seq<MarkView>,
    path: Seq<Seq<char>>,
    ranks: Ranks,
    current: Seq<char>,
    at: int,
)
    requires
        search_inv(g, marks, path.push(current), ranks),
        0 <= at < marks.len(),
        marks[at].0 == current,
        forall|e: int|
            0 <= e < g.len() && (#[trigger] g[e]).0 == current ==> has_mark(marks, g[e].1, false),
    ensures
        search_inv(
            g,
            marks.update(at, (current, false)),
            path,
            Ranks { rank: ranks.rank.insert(current, ranks.bound), bound: ranks.bound + 1 },
        ),
{
    let marks3 = marks.update(at, (current, false));
    let path1 = path.push(current);
    let done = Ranks { rank: ranks.rank.insert(current, ranks.bound), bound: ranks.bound + 1 };
    assert(path1.contains(current)) by {
        assert(path1[path.len() as int] == current);
    }
    assert(has_mark(marks, current, true));
    assert(marks[at] == (current, true)) by {
        let w = choose|w: int| 0 <= w < marks.len() && marks[w] == (current, true);
        assert(w == at);
    }
    assert(!has_mark(marks, current, false)) by {
        if has_mark(marks, current, false) {
            let w = choose|w: int| 0 <= w < marks.len() && marks[w] == (current, false);
            assert(w == at);
        }
    }
    assert forall|i: int, j: int|
        0 <= i < marks3.len() && 0 <= j < marks3.len() && (#[trigger] marks3[i]).0 == (
        #[trigger] marks3[j]).0 implies i == j by {
        assert(marks3[i].0 == marks[i].0);
        assert(marks3[j].0 == marks[j].0);
    }
    assert forall|k: Seq<char>| has_mark(marks3, k, true) <==> #[trigger] path.contains(k) by {
        if has_mark(marks3, k, true) {
            let w = choose|w: int| 0 <= w < marks3.len() && marks3[w] == (k, true);
            assert(w != at);
            assert(marks[w] == (k, true));
            assert(has_mark(marks, k, true));
            assert(path1.contains(k));
            let x = choose|x: int| 0 <= x < path1.len() && path1[x] == k;
            if x == path.len() {
                assert(k == current);
                assert(w == at);
            }
            assert(path[x] == k);
        }
        if path.contains(k) {
            let x = choose|x: int| 0 <= x < path.len() && path[x] == k;
            assert(path1[x] == k);
            assert(path1.contains(k));
            let w = choose|w: int| 0 <= w < marks.len() && marks[w] == (k, true);
            if w == at {
                assert(k == current);
                assert(path1[path.len() as int] == current);
                assert(x == path.len());
            }
            assert(marks3[w] == (k, true));
        }
    }
    assert(path.no_duplicates()) by {
        assert forall|i: int, j: int|
            0 <= i < path.len() && 0 <= j < path.len() && i != j implies path[i] != path[j] by {
            assert(path1[i] == path[i] && path1[j] == path[j]);
        }
    }
    assert forall|i: int| 0 <= i < path.len() - 1 implies has_edge(
        g,
        #[trigger] path[i],
        path[i + 1],
    ) by {
        assert(path1[i] == path[i] && path1[i + 1] == path[i + 1]);
        assert(has_edge(g, path1[i], path1[i + 1]));
    }
    assert forall|k: Seq<char>| has_mark(marks, k, false) implies has_mark(marks3, k, false)
        && k != current by {
        let w = choose|w: int| 0 <= w < marks.len() && marks[w] == (k, false);
        assert(w != at);
        assert(marks3[w] == (k, false));
    }
    assert forall|k: Seq<char>| has_mark(marks3, k, false) && k != current implies has_mark(
        marks,
        k,
        false,
    ) by {
        let w = choose|w: int| 0 <= w < marks3.len() && marks3[w] == (k, false);
        assert(w != at);
        assert(marks[w] == (k, false));
    }
    assert(has_mark(marks3, current, false)) by {
        assert(marks3[at] == (current, false));
    }
    assert forall|i: int|
        0 <= i < g.len() && has_mark(marks3, (#[trigger] g[i]).0, false) implies has_mark(
        marks3,
        g[i].1,
        false,
    ) && done.rank[g[i].1] < done.rank[g[i].0] by {
        if g[i].0 == current {
            assert(has_mark(marks, g[i].1, false));
            assert(ranks.rank[g[i].1] < ranks.bound);
        } else {
            assert(has_mark(marks, g[i].0, false));
            assert(has_mark(marks, g[i].1, false));
        }
    }
    assert forall|k: Seq<char>| #[trigger] has_mark(marks3, k, false) implies done.rank[k]
        < done.bound by {
        if k != current {
            assert(has_mark(marks, k, false));
        }
    }
}

} // verus!
