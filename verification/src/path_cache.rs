//! Remembers the canonical form of paths.

use vstd::prelude::*;
use crate::text::{find_text, lemma_position_of_range, opt_text, position_of, texts};

verus! {

/// How often the cache answered, had to ask, and got no answer.
#[derive(Debug, Clone, Copy, PartialEq, Eq, Structural)]
pub struct CacheStats {
    pub hits: usize,
    pub misses: usize,
    pub errors: usize,
}

impl Default for CacheStats {
    fn default() -> (r: Self)
        ensures
            r == (CacheStats { hits: 0, misses: 0, errors: 0 }),
    {
        CacheStats { hits: 0, misses: 0, errors: 0 }
    }
}

/// What a `DashMap` from paths to canonical paths holds.
pub uninterp spec fn resolved_entries(m: dashmap::DashMap<String, String>) -> Map<
    Seq<char>,
    Seq<char>,
>;

/// A map of paths that holds nothing.
pub open spec fn no_paths() -> Map<Seq<char>, Seq<char>> {
    Map::empty()
}

/// Wraps `DashMap::new`: a map that holds nothing.
#[verifier::external_body]
fn resolved_new() -> (m: dashmap::DashMap<String, String>)
    ensures
        resolved_entries(m) == no_paths(),
{
    dashmap::DashMap::new()
}

/// Wraps `DashMap::get`: a copy of what is filed under the path.
#[verifier::external_body]
fn resolved_get(m: &dashmap::DashMap<String, String>, path: &str) -> (r: Option<String>)
    ensures
        opt_text(r) == if resolved_entries(*m).contains_key(path@) {
            Some(resolved_entries(*m)[path@])
        } else {
            None
        },
{
    m.get(path).map(|entry| entry.value().clone())
}

/// Wraps `DashMap::insert`: the path has the canonical form afterwards.
#[verifier::external_body]
fn resolved_insert(m: &mut dashmap::DashMap<String, String>, path: String, canonical: String)
    ensures
        resolved_entries(*final(m)) == resolved_entries(*old(m)).insert(path@, canonical@),
{
    m.insert(path, canonical);
}

/// Wraps `DashMap::remove`: the path has no entry afterwards.
#[verifier::external_body]
fn resolved_remove(m: &mut dashmap::DashMap<String, String>, path: &str)
    ensures
        resolved_entries(*final(m)) == resolved_entries(*old(m)).remove(path@),
{
    m.remove(path);
}

/// Wraps `DashMap::clear`: the map holds nothing afterwards.
#[verifier::external_body]
fn resolved_clear(m: &mut dashmap::DashMap<String, String>)
    ensures
        resolved_entries(*final(m)) == no_paths(),
{
    m.clear();
}

/// Wraps `DashMap::len`: the number of entries.
#[verifier::external_body]
fn resolved_len(m: &dashmap::DashMap<String, String>) -> (n: usize)
    ensures
        n == resolved_entries(*m).len(),
{
    m.len()
}

/// What the cache knows of a path: its canonical form, or, where none could
/// be had, the path itself.
pub open spec fn known(
    resolved: Map<Seq<char>, Seq<char>>,
    fallback: Seq<Seq<char>>,
    path: Seq<char>,
) -> Option<Seq<char>> {
    if resolved.contains_key(path) {
        Some(resolved[path])
    } else if fallback.contains(path) {
        Some(path)
    } else {
        None
    }
}

/// What a cache of paths knows: the canonical forms that were found, and
/// the paths for which none could be had.
pub struct PathsKnown {
    pub resolved: Map<Seq<char>, Seq<char>>,
    pub fallback: Seq<Seq<char>>,
}

/// What the system gave for a path, as plain values.
pub open spec fn given(canonical: Option<&str>) -> Option<Seq<char>> {
    match canonical {
        Some(c) => Some(c@),
        None => None,
    }
}

/// What the system gave for several paths, as plain values.
pub open spec fn all_given(canonicals: Seq<Option<String>>) -> Seq<Option<Seq<char>>> {
    Seq::new(canonicals.len(), |i: int| opt_text(canonicals[i]))
}

/// The answer to a question for the canonical form of `path`: what is
/// known of it, else what the system gave, else the path itself.
pub open spec fn answer(k: PathsKnown, path: Seq<char>, canonical: Option<Seq<char>>) -> Seq<char> {
    match known(k.resolved, k.fallback, path) {
        Some(c) => c,
        None => match canonical {
            Some(c) => c,
            None => path,
        },
    }
}

/// What is known after that question: of a path that was known, the same;
/// of another, what the system gave.
pub open spec fn learn(k: PathsKnown, path: Seq<char>, canonical: Option<Seq<char>>) -> PathsKnown {
    if known(k.resolved, k.fallback, path) is Some {
        k
    } else {
        match canonical {
            Some(c) => PathsKnown { resolved: k.resolved.insert(path, c), fallback: k.fallback },
            None => PathsKnown { resolved: k.resolved, fallback: k.fallback.push(path) },
        }
    }
}

/// What is known after the questions for `paths`, asked in order.
pub open spec fn learn_all(
    k: PathsKnown,
    paths: Seq<Seq<char>>,
    canonicals: Seq<Option<Seq<char>>>,
) -> PathsKnown
    decreases paths.len(),
{
    if paths.len() == 0 || canonicals.len() != paths.len() {
        k
    } else {
        learn(
            learn_all(k, paths.drop_last(), canonicals.drop_last()),
            paths.last(),
            canonicals.last(),
        )
    }
}

/// The cache of canonical paths. Asking the system for the canonical form
/// of a path is left to the caller.
pub struct PathCache {
    resolved: dashmap::DashMap<String, String>,
    fallback: Vec<String>,
    stats: CacheStats,
}

impl PathCache {
    /// The canonical forms that were found.
    pub closed spec fn resolved(&self) -> Map<Seq<char>, Seq<char>> {
        resolved_entries(self.resolved)
    }

    /// The paths for which no canonical form could be had.
    pub closed spec fn fallback(&self) -> Seq<Seq<char>> {
        texts(self.fallback@)
    }

    pub closed spec fn counters(&self) -> CacheStats {
        self.stats
    }

    /// What the cache knows.
    pub open spec fn paths_known(&self) -> PathsKnown {
        PathsKnown { resolved: self.resolved(), fallback: self.fallback() }
    }

    /// No path is kept twice among those without canonical form.
    pub open spec fn wf(&self) -> bool {
        self.fallback().no_duplicates()
    }

    pub fn new() -> (r: Self)
        ensures
            r.wf(),
            r.resolved() == no_paths(),
            r.fallback().len() == 0,
            r.counters() == (CacheStats { hits: 0, misses: 0, errors: 0 }),
    {
        PathCache { resolved: resolved_new(), fallback: Vec::new(), stats: CacheStats::default() }
    }

    /// What the cache knows of `path`. An answer counts as a hit.
    pub fn lookup(&mut self, path: &str) -> (r: Option<String>)
        requires
            old(self).counters().hits < usize::MAX,
        ensures
            final(self).resolved() == old(self).resolved(),
            final(self).fallback() == old(self).fallback(),
            opt_text(r) == known(old(self).resolved(), old(self).fallback(), path@),
            final(self).counters() == if r is Some {
                CacheStats { hits: (old(self).counters().hits + 1) as usize, ..old(self).counters() }
            } else {
                old(self).counters()
            },
    {
        match resolved_get(&self.resolved, path) {
            Some(cached) => {
                self.stats.hits = self.stats.hits + 1;
                return Some(cached);
            },
            None => {},
        }
        proof {
            lemma_position_of_range(self.fallback(), path@);
        }
        match find_text(&self.fallback, path) {
            Some(_) => {
                self.stats.hits = self.stats.hits + 1;
                Some(path.to_owned())
            },
            None => None,
        }
    }

    /// Records what the system gave for a path that the cache did not know:
    /// the canonical form, or `None` where it gave none; then the path
    /// stands for itself. Either counts as a miss, the second as an error
    /// too.
    pub fn record(&mut self, path: &str, canonical: Option<&str>) -> (r: String)
        requires
            old(self).wf(),
            old(self).counters().misses < usize::MAX,
            old(self).counters().errors < usize::MAX,
        ensures
            final(self).wf(),
            r@ == match canonical {
                Some(c) => c@,
                None => path@,
            },
            final(self).resolved() == match canonical {
                Some(c) => old(self).resolved().insert(path@, c@),
                None => old(self).resolved(),
            },
            final(self).fallback() == if canonical is None && !old(self).fallback().contains(
                path@,
            ) {
                old(self).fallback().push(path@)
            } else {
                old(self).fallback()
            },
            final(self).counters() == (CacheStats {
                misses: (old(self).counters().misses + 1) as usize,
                errors: if canonical is None {
                    (old(self).counters().errors + 1) as usize
                } else {
                    old(self).counters().errors
                },
                ..old(self).counters()
            }),
            known(final(self).resolved(), final(self).fallback(), path@) is Some,
    {
        self.stats.misses = self.stats.misses + 1;
        match canonical {
            Some(c) => {
                resolved_insert(&mut self.resolved, path.to_owned(), c.to_owned());
                c.to_owned()
            },
            None => {
                self.stats.errors = self.stats.errors + 1;
                let ghost before = self.fallback();
                proof {
                    lemma_position_of_range(before, path@);
                }
                if find_text(&self.fallback, path).is_none() {
                    self.fallback.push(path.to_owned());
                    proof {
                        assert(self.fallback() =~= before.push(path@));
                        assert(self.fallback()[before.len() as int] == path@);
                    }
                }
                path.to_owned()
            },
        }
    }

    /// The canonical form of `path`: what the cache knows of it, else what
    /// the system gave, which is `canonical`, and which is then recorded.
    pub fn canonicalize(&mut self, path: &str, canonical: Option<&str>) -> (r: String)
        requires
            old(self).wf(),
            old(self).counters().hits < usize::MAX,
            old(self).counters().misses < usize::MAX,
            old(self).counters().errors < usize::MAX,
        ensures
            final(self).wf(),
            r@ == answer(old(self).paths_known(), path@, given(canonical)),
            final(self).paths_known() == learn(old(self).paths_known(), path@, given(canonical)),
            is_grown(
                old(self).resolved(),
                old(self).fallback(),
                final(self).resolved(),
                final(self).fallback(),
            ),
            known(final(self).resolved(), final(self).fallback(), path@) == Some(r@),
            final(self).counters() == if known(
                old(self).resolved(),
                old(self).fallback(),
                path@,
            ) is Some {
                CacheStats { hits: (old(self).counters().hits + 1) as usize, ..old(self).counters() }
            } else {
                CacheStats {
                    misses: (old(self).counters().misses + 1) as usize,
                    errors: if canonical is None {
                        (old(self).counters().errors + 1) as usize
                    } else {
                        old(self).counters().errors
                    },
                    ..old(self).counters()
                }
            },
    {
        match self.lookup(path) {
            Some(cached) => cached,
            None => {
                let r = self.record(path, canonical);
                proof {
                    if canonical is None {
                        assert(self.fallback().contains(path@));
                    }
                    let resolved = old(self).resolved();
                    let fallback = old(self).fallback();
                    assert forall|q: Seq<char>|
                        #![trigger known(resolved, fallback, q)]
                        known(resolved, fallback, q) is Some implies known(
                        self.resolved(),
                        self.fallback(),
                        q,
                    ) == known(resolved, fallback, q) by {
                        assert(q != path@);
                        if !resolved.contains_key(q) {
                            assert(fallback.contains(q));
                            let w = choose|w: int| 0 <= w < fallback.len() && fallback[w] == q;
                            assert(self.fallback()[w] == q);
                        }
                    }
                }
                r
            },
        }
    }

    /// The canonical forms of several paths, in order; `canonicals` holds
    /// what the system gave for each.
    pub fn canonicalize_many(&mut self, paths: &Vec<String>, canonicals: &Vec<Option<String>>) -> (r:
        Vec<String>)
        requires
            old(self).wf(),
            canonicals@.len() == paths@.len(),
            old(self).counters().hits + paths@.len() <= usize::MAX,
            old(self).counters().misses + paths@.len() <= usize::MAX,
            old(self).counters().errors + paths@.len() <= usize::MAX,
        ensures
            final(self).wf(),
            r@.len() == paths@.len(),
            final(self).paths_known() == learn_all(
                old(self).paths_known(),
                texts(paths@),
                all_given(canonicals@),
            ),
            forall|i: int|
                0 <= i < paths@.len() ==> (#[trigger] r@[i])@ == answer(
                    learn_all(
                        old(self).paths_known(),
                        texts(paths@).take(i),
                        all_given(canonicals@).take(i),
                    ),
                    paths@[i]@,
                    all_given(canonicals@)[i],
                ),
            forall|i: int|
                0 <= i < paths@.len() ==> known(
                    final(self).resolved(),
                    final(self).fallback(),
                    #[trigger] paths@[i]@,
                ) is Some,
    {
        let mut out: Vec<String> = Vec::new();
        let mut i: usize = 0;
        let ghost all = texts(paths@);
        let ghost gave = all_given(canonicals@);
        let ghost start = self.paths_known();
        proof {
            assert(all.take(0) =~= Seq::<Seq<char>>::empty());
        }
        while i < paths.len()
            invariant
                i <= paths.len(),
                canonicals@.len() == paths@.len(),
                self.wf(),
                out@.len() == i,
                all == texts(paths@),
                gave == all_given(canonicals@),
                start == old(self).paths_known(),
                self.paths_known() == learn_all(start, all.take(i as int), gave.take(i as int)),
                forall|k: int|
                    0 <= k < i ==> (#[trigger] out@[k])@ == answer(
                        learn_all(start, all.take(k), gave.take(k)),
                        paths@[k]@,
                        gave[k],
                    ),
                self.counters().hits <= old(self).counters().hits + i,
                self.counters().misses <= old(self).counters().misses + i,
                self.counters().errors <= old(self).counters().errors + i,
                old(self).counters().hits + paths@.len() <= usize::MAX,
                old(self).counters().misses + paths@.len() <= usize::MAX,
                old(self).counters().errors + paths@.len() <= usize::MAX,
                forall|k: int|
                    0 <= k < i ==> known(self.resolved(), self.fallback(), #[trigger] paths@[k]@)
                        is Some,
            decreases paths.len() - i,
        {
            let ghost resolved_before = self.resolved();
            let ghost fallback_before = self.fallback();
            proof {
                assert(all.take(i + 1).drop_last() =~= all.take(i as int));
                assert(gave.take(i + 1).drop_last() =~= gave.take(i as int));
                assert(all.take(i + 1).last() == paths@[i as int]@);
                assert(gave.take(i + 1).last() == opt_text(canonicals@[i as int]));
            }
            let canonical = match &canonicals[i] {
                Some(c) => self.canonicalize(paths[i].as_str(), Some(c.as_str())),
                None => self.canonicalize(paths[i].as_str(), None),
            };
            out.push(canonical);
            proof {
                assert forall|k: int| 0 <= k < i + 1 implies known(
                    self.resolved(),
                    self.fallback(),
                    #[trigger] paths@[k]@,
                ) is Some by {
                    if k < i {
                        lemma_known_stays(
                            resolved_before,
                            fallback_before,
                            self.resolved(),
                            self.fallback(),
                            paths@[k]@,
                        );
                    }
                }
            }
            i += 1;
        }
        proof {
            assert(all.take(paths.len() as int) =~= all);
            assert(gave.take(paths.len() as int) =~= gave);
        }
        out
    }

    /// Forgets what is known of `path`.
    pub fn invalidate(&mut self, path: &str)
        requires
            old(self).wf(),
        ensures
            final(self).wf(),
            final(self).counters() == old(self).counters(),
            final(self).resolved() == old(self).resolved().remove(path@),
            final(self).fallback() == if position_of(old(self).fallback(), path@) >= 0 {
                old(self).fallback().remove(position_of(old(self).fallback(), path@))
            } else {
                old(self).fallback()
            },
            !final(self).fallback().contains(path@),
            known(final(self).resolved(), final(self).fallback(), path@) is None,
            forall|other: Seq<char>|
                other != path@ ==> known(final(self).resolved(), final(self).fallback(), other)
                    == known(old(self).resolved(), old(self).fallback(), other),
    {
        resolved_remove(&mut self.resolved, path);
        let ghost before = self.fallback();
        proof {
            lemma_position_of_range(before, path@);
        }
        match find_text(&self.fallback, path) {
            Some(i) => {
                let _ = self.fallback.remove(i);
                proof {
                    let after = self.fallback();
                    assert(after =~= before.remove(i as int));
                    assert forall|a: int| 0 <= a < after.len() implies after[a] != path@ by {
                        let x = if a < i { a } else { a + 1 };
                        assert(after[a] == before[x]);
                        assert(before[i as int] == path@);
                    }
                    assert forall|a: int, b: int|
                        0 <= a < after.len() && 0 <= b < after.len() && a != b implies after[a]
                        != after[b] by {
                        let x = if a < i { a } else { a + 1 };
                        let y = if b < i { b } else { b + 1 };
                        assert(after[a] == before[x] && after[b] == before[y]);
                    }
                    assert forall|other: Seq<char>| other != path@ implies after.contains(other)
                        == before.contains(other) by {
                        if before.contains(other) {
                            let w = choose|w: int| 0 <= w < before.len() && before[w] == other;
                            let v = if w < i { w } else { w - 1 };
                            assert(after[v] == other);
                        }
                        if after.contains(other) {
                            let v = choose|v: int| 0 <= v < after.len() && after[v] == other;
                            let w = if v < i { v } else { v + 1 };
                            assert(before[w] == other);
                        }
                    }
                }
            },
            None => {},
        }
    }

    /// Forgets everything and sets the counters to zero.
    pub fn clear(&mut self)
        ensures
            final(self).wf(),
            final(self).resolved() == no_paths(),
            final(self).fallback().len() == 0,
            final(self).counters() == (CacheStats { hits: 0, misses: 0, errors: 0 }),
    {
        resolved_clear(&mut self.resolved);
        self.fallback.clear();
        self.stats.hits = 0;
        self.stats.misses = 0;
        self.stats.errors = 0;
    }

    pub fn stats(&self) -> (r: CacheStats)
        ensures
            r == self.counters(),
    {
        CacheStats { hits: self.stats.hits, misses: self.stats.misses, errors: self.stats.errors }
    }

    /// The number of paths of which something is known.
    pub fn len(&self) -> (n: usize)
        requires
            self.resolved().len() + self.fallback().len() <= usize::MAX,
        ensures
            n == self.resolved().len() + self.fallback().len(),
    {
        resolved_len(&self.resolved) + self.fallback.len()
    }

    pub fn is_empty(&self) -> (b: bool)
        ensures
            b == (self.resolved().len() == 0 && self.fallback().len() == 0),
    {
        resolved_len(&self.resolved) == 0 && self.fallback.len() == 0
    }
}

impl Default for PathCache {
    fn default() -> (r: Self)
        ensures
            r.wf(),
            r.resolved() == no_paths(),
            r.fallback().len() == 0,
    {
        PathCache::new()
    }
}

/// Whether the second cache knows all that the first knows, and the same
/// of it.
pub open spec fn is_grown(
    resolved: Map<Seq<char>, Seq<char>>,
    fallback: Seq<Seq<char>>,
    resolved_after: Map<Seq<char>, Seq<char>>,
    fallback_after: Seq<Seq<char>>,
) -> bool {
    forall|path: Seq<char>|
        #![trigger known(resolved, fallback, path)]
        known(resolved, fallback, path) is Some ==> known(resolved_after, fallback_after, path)
            == known(resolved, fallback, path)
}

proof fn lemma_known_stays(
    resolved: Map<Seq<char>, Seq<char>>,
    fallback: Seq<Seq<char>>,
    resolved_after: Map<Seq<char>, Seq<char>>,
    fallback_after: Seq<Seq<char>>,
    path: Seq<char>,
)
    requires
        is_grown(resolved, fallback, resolved_after, fallback_after),
        known(resolved, fallback, path) is Some,
    ensures
        known(resolved_after, fallback_after, path) == known(resolved, fallback, path),
{
}

/// Canonical forms are stable: what the cache has answered for a path it
/// answers again, whatever the system would say then, until the path is
/// forgotten.
pub proof fn lemma_canonical_form_is_stable(
    resolved: Map<Seq<char>, Seq<char>>,
    fallback: Seq<Seq<char>>,
    path: Seq<char>,
    first: Option<Seq<char>>,
    second: Option<Seq<char>>,
)
    ensures
        ({
            let answer = match known(resolved, fallback, path) {
                Some(c) => c,
                None => match first {
                    Some(c) => c,
                    None => path,
                },
            };
            let resolved_after = if known(resolved, fallback, path) is None && first is Some {
                resolved.insert(path, first->0)
            } else {
                resolved
            };
            let fallback_after = if known(resolved, fallback, path) is None && first is None {
                fallback.push(path)
            } else {
                fallback
            };
            known(resolved_after, fallback_after, path) == Some(answer)
        }),
{
    if known(resolved, fallback, path) is None && first is None {
        assert(fallback.push(path)[fallback.len() as int] == path);
    }
}

} // verus!
