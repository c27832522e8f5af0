//! The engine: checks references for circles, picks the source that wins a
//! key, interpolates and caches.

use vstd::prelude::*;
use std::collections::hash_map::DefaultHasher;
use std::hash::Hasher;
use std::sync::Arc;
use vstd::std_specs::hash::DefaultHasherAdditionalSpecFns;

use crate::config::{CacheConfig, InterpolationConfig, ResolutionConfig, SourcePrecedence};
use crate::error::AbundantisError;
use crate::resolution::cache::{
    hot_put, lookup, CacheKey, CachedView, HotEntry, KeyView, ResolutionCache, ResolvedVariable,
    ResolvedVariableView,
};
use crate::resolution::graph::{
    cycle_path, is_cycle_path, reaches_cycle, DependencyGraph, EdgeView,
};
use crate::resolution::interpolate::{
    defines, find_references, find_variable, first_variable, is_outcome, references_of,
    resolve_outcome, resolve_variable, variable_keys, Outcome,
};
use crate::resolution::order::{
    all_places, file_order_indices, filter_texts, in_range, is_ordered, is_rising, order_keys,
    participates, rank_sorted,
    passes, passes_filter, snapshot_views, sort_by_rank, takes_part,
};
use crate::source::registry::{source_ids, SourceRegistry};
use crate::source::traits::{EnvSource, SourceId, SourceSnapshot, SourceSnapshotView};
use crate::source::variable::{variable_views, ParsedVariableView};
use crate::text::{concat, join, joined, lemma_position_of_range, position_of, texts};
use crate::workspace::context::{WorkspaceContext, WorkspaceContextView};

verus! {

/// The sum of the versions of the snapshots that have one, on the 64-bit
/// counter.
pub open spec fn version_sum(snaps: Seq<SourceSnapshotView>) -> u64
    decreases snaps.len(),
{
    if snaps.len() == 0 {
        0
    } else {
        version_sum(snaps.drop_last()).wrapping_add(
            match snaps.last().version {
                Some(v) => v,
                None => 0,
            },
        )
    }
}

/// The references that the value of one variable makes.
pub open spec fn variable_edges(v: ParsedVariableView) -> Seq<EdgeView> {
    Seq::new(
        references_of(v.raw_value).len(),
        |i: int| (v.key, references_of(v.raw_value)[i]),
    )
}

/// The references that the variables of a list make, in order.
pub open spec fn variables_edges(vars: Seq<ParsedVariableView>) -> Seq<EdgeView>
    decreases vars.len(),
{
    if vars.len() == 0 {
        Seq::empty()
    } else {
        variables_edges(vars.drop_last()) + variable_edges(vars.last())
    }
}

/// The references that the variables of all snapshots make, in order.
pub open spec fn snapshots_edges(snaps: Seq<SourceSnapshotView>) -> Seq<EdgeView>
    decreases snaps.len(),
{
    if snaps.len() == 0 {
        Seq::empty()
    } else {
        snapshots_edges(snaps.drop_last()) + variables_edges(snaps.last().variables)
    }
}

/// The keys of the variables of all snapshots, in order.
pub open spec fn all_keys(snaps: Seq<SourceSnapshotView>) -> Seq<Seq<char>>
    decreases snaps.len(),
{
    if snaps.len() == 0 {
        Seq::empty()
    } else {
        all_keys(snaps.drop_last()) + variable_keys(snaps.last().variables)
    }
}

/// Whether `i` is the first key from which a circle of references can be
/// reached.
pub open spec fn is_first_circular(g: Seq<EdgeView>, keys: Seq<Seq<char>>, i: int) -> bool {
    &&& 0 <= i < keys.len()
    &&& reaches_cycle(g, keys[i])
    &&& forall|j: int| 0 <= j < i ==> !reaches_cycle(g, #[trigger] keys[j])
}

/// Whether `chain` reports the circle found from `key`: the keys of the
/// path that the search from `key` has walked when it meets the circle,
/// joined by arrows, and `key` once more at the end.
pub open spec fn is_cycle_chain(g: Seq<EdgeView>, key: Seq<char>, chain: Seq<char>) -> bool {
    &&& is_cycle_path(g, key, cycle_path(g, key))
    &&& chain == joined(cycle_path(g, key), " -> "@) + " -> "@ + key
}

/// Whether an error reports a circle found from `key`.
pub open spec fn reports_cycle(e: AbundantisError, g: Seq<EdgeView>, key: Seq<char>) -> bool {
    match e {
        AbundantisError::CircularDependency { chain } => is_cycle_chain(g, key, chain@),
        _ => false,
    }
}

/// Whether the source at place `w` wins the key among the places `among`:
/// it defines the key, and every other place that does has a lower rank, or
/// the same rank and stands before it.
pub open spec fn is_winner(
    snaps: Seq<SourceSnapshotView>,
    ranks: Seq<int>,
    among: Set<usize>,
    key: Seq<char>,
    w: usize,
) -> bool {
    &&& w < snaps.len()
    &&& among.contains(w)
    &&& defines(snaps[w as int], key)
    &&& forall|j: usize|
        among.contains(j) && j < snaps.len() && j != w && defines(#[trigger] snaps[j as int], key)
            ==> ranks[j as int] < ranks[w as int] || (ranks[j as int] == ranks[w as int] && j < w)
}

/// Whether no place among `among` defines the key.
pub open spec fn nobody_defines(
    snaps: Seq<SourceSnapshotView>,
    among: Set<usize>,
    key: Seq<char>,
) -> bool {
    forall|j: usize| among.contains(j) && j < snaps.len() ==> !defines(#[trigger] snaps[j as int], key)
}

/// The variables of the snapshots at the places `places`, in order.
pub open spec fn variables_at(snaps: Seq<SourceSnapshotView>, places: Seq<usize>) -> Seq<
    ParsedVariableView,
>
    decreases places.len(),
{
    if places.len() == 0 {
        Seq::empty()
    } else {
        variables_at(snaps, places.drop_last()) + snaps[places.last() as int].variables
    }
}

/// Of the variables with one key, the first; the variables keep their
/// order.
pub open spec fn first_of_each_key(vars: Seq<ParsedVariableView>) -> Seq<ParsedVariableView>
    decreases vars.len(),
{
    if vars.len() == 0 {
        Seq::empty()
    } else if variable_keys(first_of_each_key(vars.drop_last())).contains(vars.last().key) {
        first_of_each_key(vars.drop_last())
    } else {
        first_of_each_key(vars.drop_last()).push(vars.last())
    }
}

/// The bytes that go into the hash of a scope, one write each.
pub open spec fn context_writes(c: WorkspaceContextView) -> Seq<Seq<u8>> {
    seq![vstd::utf8::encode_utf8(c.workspace_root), vstd::utf8::encode_utf8(c.package_root)] + (
    match c.package_name {
        Some(name) => seq![seq![1u8], vstd::utf8::encode_utf8(name)],
        None => seq![seq![0u8]],
    }) + Seq::new(c.env_files.len(), |i: int| vstd::utf8::encode_utf8(c.env_files[i]))
}

/// The hash of a scope: what the default hasher of `std` makes of its roots,
/// its package name and its files, in this order.
pub open spec fn context_hash(c: WorkspaceContextView) -> u64 {
    DefaultHasher::spec_finish(context_writes(c))
}

/// The hash of a scope.
pub fn hash_context(context: &WorkspaceContext) -> (r: u64)
    ensures
        r == context_hash(context@),
{
    let mut hasher = DefaultHasher::new();
    hasher.write(context.workspace_root.as_str().as_bytes());
    hasher.write(context.package_root.as_str().as_bytes());
    let mut tag: Vec<u8> = Vec::new();
    match &context.package_name {
        Some(name) => {
            tag.push(1u8);
            hasher.write(tag.as_slice());
            hasher.write(name.as_str().as_bytes());
        },
        None => {
            tag.push(0u8);
            hasher.write(tag.as_slice());
        },
    }
    let ghost head = hasher@;
    let ghost files = context@.env_files;
    let mut i: usize = 0;
    proof {
        assert(tag@ =~= if context.package_name is Some {
            seq![1u8]
        } else {
            seq![0u8]
        });
        assert(head =~= seq![
            vstd::utf8::encode_utf8(context@.workspace_root),
            vstd::utf8::encode_utf8(context@.package_root),
        ] + (match context@.package_name {
            Some(name) => seq![seq![1u8], vstd::utf8::encode_utf8(name)],
            None => seq![seq![0u8]],
        }));
    }
    while i < context.env_files.len()
        invariant
            i <= context.env_files.len(),
            files == context@.env_files,
            hasher@ == head + Seq::new(i as nat, |k: int| vstd::utf8::encode_utf8(files[k])),
        decreases context.env_files.len() - i,
    {
        hasher.write(context.env_files[i].as_str().as_bytes());
        proof {
            assert(files[i as int] == context.env_files@[i as int]@);
            assert(hasher@ =~= head + Seq::new(
                (i + 1) as nat,
                |k: int| vstd::utf8::encode_utf8(files[k]),
            ));
        }
        i += 1;
    }
    hasher.finish()
}

/// The sum of the versions of the snapshots that have one.
pub fn snapshots_version(snapshots: &Vec<SourceSnapshot>) -> (r: u64)
    ensures
        r == version_sum(snapshot_views(snapshots@)),
{
    let ghost snaps = snapshot_views(snapshots@);
    let mut sum: u64 = 0;
    let mut i: usize = 0;
    proof {
        assert(snaps.take(0) =~= Seq::<SourceSnapshotView>::empty());
    }
    while i < snapshots.len()
        invariant
            i <= snapshots.len(),
            snaps == snapshot_views(snapshots@),
            sum == version_sum(snaps.take(i as int)),
        decreases snapshots.len() - i,
    {
        proof {
            assert(snaps.take(i + 1).drop_last() =~= snaps.take(i as int));
            assert(snaps.take(i + 1).last() == snapshots@[i as int]@);
        }
        let version: u64 = match snapshots[i].version {
            Some(v) => v,
            None => 0,
        };
        sum = sum.wrapping_add(version);
        i += 1;
    }
    assert(snaps.take(snapshots.len() as int) =~= snaps);
    sum
}

/// Rebuilds the graph from the references of all variables, then searches a
/// circle from each variable in turn. The first circle found is the error.
pub fn build_dependency_graph(graph: &mut DependencyGraph, snapshots: &Vec<SourceSnapshot>) -> (r:
    Result<(), AbundantisError>)
    ensures
        final(graph).edges() == snapshots_edges(snapshot_views(snapshots@)),
        match r {
            Ok(_) => forall|i: int|
                0 <= i < all_keys(snapshot_views(snapshots@)).len() ==> !reaches_cycle(
                    final(graph).edges(),
                    #[trigger] all_keys(snapshot_views(snapshots@))[i],
                ),
            Err(e) => exists|i: int|
                #![trigger all_keys(snapshot_views(snapshots@))[i]]
                is_first_circular(final(graph).edges(), all_keys(snapshot_views(snapshots@)), i)
                    && reports_cycle(
                    e,
                    final(graph).edges(),
                    all_keys(snapshot_views(snapshots@))[i],
                ),
        },
{
    let ghost snaps = snapshot_views(snapshots@);
    graph.clear();
    let mut s: usize = 0;
    proof {
        assert(snaps.take(0) =~= Seq::<SourceSnapshotView>::empty());
    }
    while s < snapshots.len()
        invariant
            s <= snapshots.len(),
            snaps == snapshot_views(snapshots@),
            graph.edges() == snapshots_edges(snaps.take(s as int)),
        decreases snapshots.len() - s,
    {
        let ghost done = graph.edges();
        let ghost vars = snaps[s as int].variables;
        let mut v: usize = 0;
        proof {
            assert(snaps.take(s + 1).drop_last() =~= snaps.take(s as int));
            assert(snaps.take(s + 1).last() == snaps[s as int]);
            assert(vars == variable_views(snapshots@[s as int].variables@));
            assert(vars.take(0) =~= Seq::<ParsedVariableView>::empty());
            assert(done + Seq::<EdgeView>::empty() =~= done);
        }
        while v < snapshots[s].variables.len()
            invariant
                s < snapshots.len(),
                v <= snapshots@[s as int].variables@.len(),
                vars == variable_views(snapshots@[s as int].variables@),
                graph.edges() == done + variables_edges(vars.take(v as int)),
            decreases snapshots@[s as int].variables@.len() - v,
        {
            let variable = &snapshots[s].variables[v];
            let references = find_references(variable.raw_value.as_str());
            let ghost before = graph.edges();
            let mut k: usize = 0;
            proof {
                assert(vars.take(v + 1).drop_last() =~= vars.take(v as int));
                assert(vars.take(v + 1).last() == variable@);
                assert(variable_edges(variable@).take(0) =~= Seq::<EdgeView>::empty());
                assert(before + Seq::<EdgeView>::empty() =~= before);
            }
            while k < references.len()
                invariant
                    k <= references.len(),
                    texts(references@) == references_of(variable@.raw_value),
                    graph.edges() == before + variable_edges(variable@).take(k as int),
                decreases references.len() - k,
            {
                graph.add_edge(variable.key.clone(), references[k].clone(), Some((0, 0)));
                proof {
                    let edges = variable_edges(variable@);
                    assert(edges[k as int] == (variable@.key, texts(references@)[k as int]));
                    assert(edges.take(k + 1) =~= edges.take(k as int).push(edges[k as int]));
                    assert(graph.edges() =~= before + edges.take(k + 1));
                }
                k += 1;
            }
            proof {
                let edges = variable_edges(variable@);
                assert(edges.take(references.len() as int) =~= edges);
                assert(graph.edges() =~= done + variables_edges(vars.take(v + 1)));
            }
            v += 1;
        }
        proof {
            assert(vars.take(vars.len() as int) =~= vars);
        }
        s += 1;
    }
    proof {
        assert(snaps.take(snapshots.len() as int) =~= snaps);
    }
    let ghost g = graph.edges();
    let ghost keys = all_keys(snaps);
    let mut visited: Vec<(String, bool)> = Vec::new();
    let mut path: Vec<String> = Vec::new();
    let mut s: usize = 0;
    while s < snapshots.len()
        invariant
            s <= snapshots.len(),
            snaps == snapshot_views(snapshots@),
            keys == all_keys(snaps),
            g == graph.edges(),
            g == snapshots_edges(snaps),
            forall|i: int|
                0 <= i < all_keys(snaps.take(s as int)).len() ==> !reaches_cycle(
                    g,
                    #[trigger] all_keys(snaps.take(s as int))[i],
                ),
        decreases snapshots.len() - s,
    {
        let ghost seen = all_keys(snaps.take(s as int));
        let ghost vars = snaps[s as int].variables;
        let mut v: usize = 0;
        proof {
            assert(snaps.take(s + 1).drop_last() =~= snaps.take(s as int));
            assert(snaps.take(s + 1).last() == snaps[s as int]);
            assert(vars == variable_views(snapshots@[s as int].variables@));
            lemma_all_keys_prefix(snaps, s as int);
        }
        while v < snapshots[s].variables.len()
            invariant
                s < snapshots.len(),
                v <= snapshots@[s as int].variables@.len(),
                snaps == snapshot_views(snapshots@),
                keys == all_keys(snaps),
                g == graph.edges(),
                g == snapshots_edges(snaps),
                seen == all_keys(snaps.take(s as int)),
                vars == variable_views(snapshots@[s as int].variables@),
                vars == snaps[s as int].variables,
                (seen + variable_keys(vars)).is_prefix_of(keys),
                forall|i: int| 0 <= i < seen.len() ==> !reaches_cycle(g, #[trigger] seen[i]),
                forall|i: int|
                    0 <= i < v ==> !reaches_cycle(g, #[trigger] variable_keys(vars)[i]),
            decreases snapshots@[s as int].variables@.len() - v,
        {
            let variable = &snapshots[s].variables[v];
            let cycle = graph.detect_cycle_with_state(
                variable.key.as_str(),
                &mut visited,
                &mut path,
            );
            if cycle.len() > 0 {
                let head = join(&cycle, " -> ");
                let chain = concat(concat(head.as_str(), " -> ").as_str(), variable.key.as_str());
                proof {
                    let at = seen.len() + v;
                    let both = seen + variable_keys(vars);
                    assert(both[at] == variable@.key);
                    assert(both =~= keys.subrange(0, both.len() as int));
                    assert(keys[at] == both[at]);
                    assert forall|j: int| 0 <= j < at implies !reaches_cycle(
                        g,
                        #[trigger] keys[j],
                    ) by {
                        assert(keys[j] == both[j]);
                        if j < seen.len() {
                            assert(both[j] == seen[j]);
                        } else {
                            assert(both[j] == variable_keys(vars)[j - seen.len()]);
                        }
                    }
                    assert(is_first_circular(g, keys, at));
                    assert(is_cycle_path(g, variable@.key, texts(cycle@)));
                    assert(is_cycle_chain(g, keys[at], chain@));
                }
                return Err(AbundantisError::CircularDependency { chain });
            }
            v += 1;
        }
        proof {
            let next = all_keys(snaps.take(s + 1));
            assert(next == seen + variable_keys(vars));
            assert forall|i: int| 0 <= i < next.len() implies !reaches_cycle(
                g,
                #[trigger] next[i],
            ) by {
                if i < seen.len() {
                    assert(next[i] == seen[i]);
                } else {
                    assert(next[i] == variable_keys(vars)[i - seen.len()]);
                }
            }
        }
        s += 1;
    }
    proof {
        assert(snaps.take(snapshots.len() as int) =~= snaps);
    }
    Ok(())
}

/// The keys of the first snapshots, with those of the next one, begin the
/// keys of all snapshots.
proof fn lemma_all_keys_prefix(snaps: Seq<SourceSnapshotView>, s: int)
    requires
        0 <= s < snaps.len(),
    ensures
        (all_keys(snaps.take(s)) + variable_keys(snaps[s].variables)).is_prefix_of(all_keys(snaps)),
        all_keys(snaps.take(s + 1)) == all_keys(snaps.take(s)) + variable_keys(snaps[s].variables),
    decreases snaps.len() - s,
{
    assert(snaps.take(s + 1).drop_last() =~= snaps.take(s));
    assert(snaps.take(s + 1).last() == snaps[s]);
    let here = all_keys(snaps.take(s + 1));
    if s + 1 == snaps.len() {
        assert(snaps.take(s + 1) =~= snaps);
        assert(here =~= all_keys(snaps).subrange(0, here.len() as int));
    } else {
        lemma_all_keys_prefix(snaps, s + 1);
        let next = all_keys(snaps.take(s + 1)) + variable_keys(snaps[s + 1].variables);
        let all = all_keys(snaps);
        assert(next =~= all.subrange(0, next.len() as int));
        assert(here =~= all.subrange(0, here.len() as int)) by {
            assert forall|i: int| 0 <= i < here.len() implies here[i] == all[i] by {
                assert(next[i] == here[i]);
                assert(all.subrange(0, next.len() as int)[i] == all[i]);
            }
        }
    }
}

/// The places of the snapshots that pass the filter of active files, in
/// rising order.
pub fn filter_snapshots_ref(snapshots: &Vec<SourceSnapshot>, filter: Option<&Vec<SourceId>>) -> (r:
    Vec<usize>)
    ensures
        is_rising(r@, snapshots@.len() as int),
        forall|i: usize|
            r@.contains(i) <==> i < snapshots@.len() && passes_filter(
                (#[trigger] snapshots@[i as int]).source_id@,
                filter_texts(filter),
            ),
{
    let ghost spec_filter = filter_texts(filter);
    let mut out: Vec<usize> = Vec::new();
    let mut i: usize = 0;
    while i < snapshots.len()
        invariant
            i <= snapshots.len(),
            spec_filter == filter_texts(filter),
            is_rising(out@, i as int),
            forall|k: usize|
                out@.contains(k) <==> k < i && passes_filter(
                    (#[trigger] snapshots@[k as int]).source_id@,
                    spec_filter,
                ),
        decreases snapshots.len() - i,
    {
        let ghost before = out@;
        if passes(snapshots[i].source_id.as_str(), filter) {
            out.push(i);
            proof {
                assert(out@[before.len() as int] == i);
                assert forall|k: usize| out@.contains(k) implies k < i + 1 && passes_filter(
                    (#[trigger] snapshots@[k as int]).source_id@,
                    spec_filter,
                ) by {
                    let w = choose|w: int| 0 <= w < out@.len() && out@[w] == k;
                    if w < before.len() {
                        assert(before[w] == k);
                        assert(before.contains(k));
                    }
                }
                assert forall|k: usize|
                    k < i + 1 && passes_filter(
                        (#[trigger] snapshots@[k as int]).source_id@,
                        spec_filter,
                    ) implies out@.contains(k) by {
                    if k < i {
                        assert(before.contains(k));
                        let w = choose|w: int| 0 <= w < before.len() && before[w] == k;
                        assert(out@[w] == k);
                    }
                }
            }
        }
        i += 1;
    }
    out
}

/// Of the places `places`, those of the snapshots that take part under the
/// precedence list, in their order: a place stays as often as it stands in
/// the list.
pub open spec fn taking_part(
    snaps: Seq<SourceSnapshotView>,
    places: Seq<usize>,
    precedence: Seq<SourcePrecedence>,
) -> Seq<usize>
    decreases places.len(),
{
    if places.len() == 0 {
        Seq::empty()
    } else if places.last() < snaps.len() && participates(
        snaps[places.last() as int].source_id,
        precedence,
    ) {
        taking_part(snaps, places.drop_last(), precedence).push(places.last())
    } else {
        taking_part(snaps, places.drop_last(), precedence)
    }
}

/// Of the places `places`, those of the snapshots that take part under the
/// precedence list, in their order. The places may stand in any order and
/// more than once; each names a snapshot of the list.
pub fn filter_by_source_type(
    snapshots: &Vec<SourceSnapshot>,
    places: &Vec<usize>,
    precedence: &Vec<SourcePrecedence>,
) -> (r: Vec<usize>)
    requires
        forall|a: int| 0 <= a < places@.len() ==> #[trigger] places@[a] < snapshots@.len(),
    ensures
        r@ == taking_part(snapshot_views(snapshots@), places@, precedence@),
        forall|a: int| 0 <= a < r@.len() ==> #[trigger] r@[a] < snapshots@.len(),
        is_rising(places@, snapshots@.len() as int) ==> is_rising(r@, snapshots@.len() as int),
        forall|i: usize|
            r@.contains(i) <==> places@.contains(i) && participates(
                (#[trigger] snapshots@[i as int]).source_id@,
                precedence@,
            ),
        precedence@.len() == 0 ==> r@.len() == 0,
{
    let ghost snaps = snapshot_views(snapshots@);
    let mut out: Vec<usize> = Vec::new();
    let mut i: usize = 0;
    proof {
        assert(places@.take(0) =~= Seq::<usize>::empty());
    }
    while i < places.len()
        invariant
            i <= places.len(),
            snaps == snapshot_views(snapshots@),
            forall|a: int| 0 <= a < places@.len() ==> #[trigger] places@[a] < snapshots@.len(),
            out@ == taking_part(snaps, places@.take(i as int), precedence@),
            forall|a: int| 0 <= a < out@.len() ==> #[trigger] out@[a] < snapshots@.len(),
            is_rising(places@, snapshots@.len() as int) ==> is_rising(
                out@,
                snapshots@.len() as int,
            ),
            forall|k: usize|
                out@.contains(k) <==> places@.take(i as int).contains(k) && participates(
                    (#[trigger] snapshots@[k as int]).source_id@,
                    precedence@,
                ),
            precedence@.len() == 0 ==> out@.len() == 0,
        decreases places.len() - i,
    {
        let ghost before = out@;
        let ghost seen = places@.take(i as int);
        let ghost more = places@.take(i + 1);
        let place = places[i];
        proof {
            assert(more =~= seen.push(place));
            assert(more.drop_last() =~= seen);
            assert(snaps[place as int].source_id == snapshots@[place as int].source_id@);
        }
        if takes_part(snapshots[place].source_id.as_str(), precedence) {
            out.push(place);
            proof {
                assert(out@ =~= before.push(place));
                assert(out@[before.len() as int] == place);
                if is_rising(places@, snapshots@.len() as int) {
                    assert forall|a: int, b: int| 0 <= a < b < out@.len() implies out@[a]
                        < out@[b] by {
                        if b == before.len() {
                            let k = before[a];
                            assert(out@[a] == k);
                            assert(before.contains(k));
                            assert(seen.contains(k) && participates(
                                snapshots@[k as int].source_id@,
                                precedence@,
                            ));
                            let u = choose|u: int| 0 <= u < seen.len() && seen[u] == k;
                            assert(places@[u] < places@[i as int]);
                        } else {
                            assert(out@[a] == before[a] && out@[b] == before[b]);
                        }
                    }
                }
            }
        }
        proof {
            assert forall|k: usize| out@.contains(k) implies more.contains(k) && participates(
                (#[trigger] snapshots@[k as int]).source_id@,
                precedence@,
            ) by {
                let w = choose|w: int| 0 <= w < out@.len() && out@[w] == k;
                if w < before.len() {
                    assert(before[w] == k);
                    assert(before.contains(k));
                    let u = choose|u: int| 0 <= u < seen.len() && seen[u] == k;
                    assert(more[u] == k);
                } else {
                    assert(more[i as int] == k);
                }
            }
            assert forall|k: usize|
                more.contains(k) && participates(
                    (#[trigger] snapshots@[k as int]).source_id@,
                    precedence@,
                ) implies out@.contains(k) by {
                let u = choose|u: int| 0 <= u < more.len() && more[u] == k;
                if u < i {
                    assert(seen[u] == k);
                    assert(seen.contains(k));
                    assert(before.contains(k));
                    let w = choose|w: int| 0 <= w < before.len() && before[w] == k;
                    assert(out@[w] == k);
                } else {
                    assert(out@[before.len() as int] == k);
                }
            }
        }
        i += 1;
    }
    assert(places@.take(places.len() as int) =~= places@);
    out
}

/// The last of the places `sorted` at which the key is defined, with the
/// place of the key's first variable there.
pub fn last_defining(snapshots: &Vec<SourceSnapshot>, sorted: &Vec<usize>, key: &str) -> (r: Option<
    (usize, usize),
>)
    requires
        forall|a: int| 0 <= a < sorted@.len() ==> #[trigger] sorted@[a] < snapshots@.len(),
    ensures
        match r {
            Some((at, v)) => {
                &&& at < sorted@.len()
                &&& v < snapshots@[sorted@[at as int] as int].variables@.len()
                &&& defines(snapshot_views(snapshots@)[sorted@[at as int] as int], key@)
                &&& first_variable(snapshot_views(snapshots@)[sorted@[at as int] as int], key@)
                    == snapshots@[sorted@[at as int] as int].variables@[v as int]@
                &&& forall|b: int|
                    at < b < sorted@.len() ==> !defines(
                        snapshot_views(snapshots@)[#[trigger] sorted@[b] as int],
                        key@,
                    )
            },
            None => forall|b: int|
                0 <= b < sorted@.len() ==> !defines(
                    snapshot_views(snapshots@)[#[trigger] sorted@[b] as int],
                    key@,
                ),
        },
        last_definer(snapshot_views(snapshots@), sorted@, key@) == match r {
            Some((at, _)) => Some(sorted@[at as int]),
            None => None,
        },
{
    let ghost snaps = snapshot_views(snapshots@);
    let mut at: usize = sorted.len();
    while at > 0
        invariant
            at <= sorted.len(),
            snaps == snapshot_views(snapshots@),
            forall|a: int| 0 <= a < sorted@.len() ==> #[trigger] sorted@[a] < snapshots@.len(),
            forall|b: int| at <= b < sorted@.len() ==> !defines(snaps[#[trigger] sorted@[b] as int], key@),
        decreases at,
    {
        at -= 1;
        let place = sorted[at];
        proof {
            assert(snaps[place as int].variables == variable_views(snapshots@[place as int].variables@));
            lemma_position_of_range(variable_keys(snaps[place as int].variables), key@);
        }
        match find_variable(&snapshots[place].variables, key) {
            Some(v) => {
                proof {
                    lemma_last_definer(snaps, sorted@, key@, at as int);
                }
                return Some((at, v));
            },
            None => {},
        }
    }
    proof {
        lemma_no_definer(snaps, sorted@, key@);
    }
    None
}

/// The place that gives the key among places that stand in the file order:
/// the last of them at which the key is defined.
pub open spec fn last_definer(snaps: Seq<SourceSnapshotView>, sorted: Seq<usize>, key: Seq<char>) -> Option<
    usize,
>
    decreases sorted.len(),
{
    if sorted.len() == 0 {
        None
    } else if sorted.last() < snaps.len() && defines(snaps[sorted.last() as int], key) {
        Some(sorted.last())
    } else {
        last_definer(snaps, sorted.drop_last(), key)
    }
}

proof fn lemma_last_definer(
    snaps: Seq<SourceSnapshotView>,
    sorted: Seq<usize>,
    key: Seq<char>,
    at: int,
)
    requires
        in_range(sorted, snaps.len() as int),
        0 <= at < sorted.len(),
        defines(snaps[sorted[at] as int], key),
        forall|b: int| at < b < sorted.len() ==> !defines(snaps[#[trigger] sorted[b] as int], key),
    ensures
        last_definer(snaps, sorted, key) == Some(sorted[at]),
    decreases sorted.len(),
{
    if at < sorted.len() - 1 {
        let front = sorted.drop_last();
        assert(!defines(snaps[sorted[sorted.len() - 1] as int], key));
        assert forall|b: int| at < b < front.len() implies !defines(
            snaps[#[trigger] front[b] as int],
            key,
        ) by {
            assert(front[b] == sorted[b]);
        }
        assert(front[at] == sorted[at]);
        lemma_last_definer(snaps, front, key, at);
    }
}

proof fn lemma_no_definer(snaps: Seq<SourceSnapshotView>, sorted: Seq<usize>, key: Seq<char>)
    requires
        forall|b: int| 0 <= b < sorted.len() ==> !defines(snaps[#[trigger] sorted[b] as int], key),
    ensures
        last_definer(snaps, sorted, key) is None,
    decreases sorted.len(),
{
    if sorted.len() > 0 {
        let front = sorted.drop_last();
        assert(!defines(snaps[sorted[sorted.len() - 1] as int], key));
        assert forall|b: int| 0 <= b < front.len() implies !defines(
            snaps[#[trigger] front[b] as int],
            key,
        ) by {
            assert(front[b] == sorted[b]);
        }
        lemma_no_definer(snaps, front, key);
    }
}

/// Among places in rising order of rank, the last that defines the key wins
/// it.
pub proof fn lemma_last_defining_wins(
    snaps: Seq<SourceSnapshotView>,
    ranks: Seq<int>,
    sorted: Seq<usize>,
    key: Seq<char>,
    at: int,
)
    requires
        is_ordered(sorted, ranks),
        ranks.len() == snaps.len(),
        0 <= at < sorted.len(),
        defines(snaps[sorted[at] as int], key),
        forall|b: int| at < b < sorted.len() ==> !defines(snaps[#[trigger] sorted[b] as int], key),
    ensures
        is_winner(snaps, ranks, sorted.to_set(), key, sorted[at]),
{
    let w = sorted[at];
    assert(sorted.to_set().contains(w)) by {
        assert(sorted.contains(w));
    }
    assert forall|j: usize|
        sorted.to_set().contains(j) && j < snaps.len() && j != w && defines(
            #[trigger] snaps[j as int],
            key,
        ) implies ranks[j as int] < ranks[w as int] || (ranks[j as int] == ranks[w as int] && j
        < w) by {
        assert(sorted.contains(j));
        let b = choose|b: int| 0 <= b < sorted.len() && sorted[b] == j;
        if b > at {
            assert(!defines(snaps[sorted[b] as int], key));
        }
    }
}

/// Where the files `.env` and `.env.local` of a directory are among the
/// sources and no other source holds the key, `.env.local` wins a key that
/// it holds under the file order `.env`, `.env.local`, whether or not
/// `.env` holds the key too. The law speaks of the directories in which the
/// system takes `.env.local` for the name of that file.
pub proof fn lemma_later_file_wins(
    snaps: Seq<SourceSnapshotView>,
    among: Set<usize>,
    key: Seq<char>,
    dir: Seq<char>,
    plain: usize,
    local: usize,
)
    requires
        crate::paths::path_file_name(dir + "/.env.local"@) == Some(".env.local"@),
        plain < snaps.len(),
        local < snaps.len(),
        among.contains(local),
        snaps[plain as int].source_id == "file:"@ + dir + "/.env"@,
        snaps[local as int].source_id == "file:"@ + dir + "/.env.local"@,
        defines(snaps[local as int], key),
        forall|j: usize|
            among.contains(j) && j < snaps.len() && j != plain && j != local ==> !defines(
                #[trigger] snaps[j as int],
                key,
            ),
    ensures
        is_winner(snaps, order_keys(snaps, seq![".env"@, ".env.local"@]), among, key, local),
{
    crate::resolution::order::lemma_local_file_ranks_last(dir);
    let ranks = order_keys(snaps, seq![".env"@, ".env.local"@]);
    assert(ranks[plain as int] == 1);
    assert(ranks[local as int] == 2);
}

/// The engine.
pub struct ResolutionEngine {
    resolution_config: ResolutionConfig,
    interpolation_config: InterpolationConfig,
    cache: ResolutionCache,
    graph: DependencyGraph,
    graph_version: u64,
}

/// Whether the check of the references finds a circle: references are
/// checked, the snapshots are not those checked last, and from some variable
/// a circle can be reached.
pub open spec fn cycle_found(before: ResolutionEngine, snaps: Seq<SourceSnapshotView>) -> bool {
    &&& before.resolution().type_check
    &&& version_sum(snaps) != before.graph_version()
    &&& exists|i: int|
        0 <= i < all_keys(snaps).len() && reaches_cycle(
            snapshots_edges(snaps),
            #[trigger] all_keys(snaps)[i],
        )
}

/// Whether the engine, going from `before` to `after`, has checked the
/// references of the snapshots with the result `checked`: a circle found is
/// the error and leaves the checked version as it was; else the version sum
/// of the snapshots is the checked version from now on. Without type
/// checking nothing is checked.
pub open spec fn is_check(
    before: ResolutionEngine,
    after: ResolutionEngine,
    snaps: Seq<SourceSnapshotView>,
    checked: Result<(), AbundantisError>,
) -> bool {
    &&& after.resolution() == before.resolution()
    &&& after.interpolation() == before.interpolation()
    &&& after.cache_state() == before.cache_state()
    &&& if cycle_found(before, snaps) {
        &&& after.graph_version() == before.graph_version()
        &&& checked matches Err(e) && exists|i: int|
            #![trigger all_keys(snaps)[i]]
            is_first_circular(snapshots_edges(snaps), all_keys(snaps), i) && reports_cycle(
                e,
                snapshots_edges(snaps),
                all_keys(snaps)[i],
            )
    } else {
        &&& checked is Ok
        &&& after.graph_version() == if before.resolution().type_check {
            version_sum(snaps)
        } else {
            before.graph_version()
        }
    }
}

/// Whether `r` is the resolution of `key` from the place `chosen`, made by
/// an engine that goes from `before` to `after`: without a place there is
/// no variable; else the key's variable at the place is resolved, and
/// cached where that succeeds.
pub open spec fn is_choice_of(
    before: ResolutionEngine,
    after: ResolutionEngine,
    key: Seq<char>,
    context: WorkspaceContextView,
    snaps: Seq<SourceSnapshotView>,
    chosen: Option<usize>,
    now: u128,
    r: Result<Option<Arc<ResolvedVariable>>, AbundantisError>,
) -> bool {
    &&& after.resolution() == before.resolution()
    &&& after.interpolation() == before.interpolation()
    &&& match chosen {
        None => r == Ok::<Option<Arc<ResolvedVariable>>, AbundantisError>(None) && cache_same(
            before.cache_state(),
            after.cache_state(),
        ),
        Some(w) => {
            let outcome = resolve_outcome(
                first_variable(snaps[w as int], key),
                snaps,
                before.interpolation(),
                0,
                Seq::empty(),
            );
            match r {
                Ok(Some(v)) => outcome == Outcome::Resolved((*v)@) && cache_gained(
                    before.cache_state(),
                    after.cache_state(),
                    (key, context_hash(context)),
                    ((*v)@, now),
                ),
                Ok(None) => false,
                Err(e) => is_outcome(Err(e), outcome) && cache_same(
                    before.cache_state(),
                    after.cache_state(),
                ),
            }
        },
    }
}

/// Whether `r` is the resolution of `key` among the places `among`, made
/// by an engine that goes from `before` to `after`: where no place defines
/// the key there is no variable; else the variable of the place that wins
/// the key is resolved, and cached where that succeeds.
pub open spec fn is_choice(
    before: ResolutionEngine,
    after: ResolutionEngine,
    key: Seq<char>,
    context: WorkspaceContextView,
    snaps: Seq<SourceSnapshotView>,
    among: Set<usize>,
    now: u128,
    r: Result<Option<Arc<ResolvedVariable>>, AbundantisError>,
) -> bool {
    &&& after.resolution() == before.resolution()
    &&& after.interpolation() == before.interpolation()
    &&& nobody_defines(snaps, among, key) ==> r == Ok::<
        Option<Arc<ResolvedVariable>>,
        AbundantisError,
    >(None) && cache_same(before.cache_state(), after.cache_state())
    &&& forall|w: usize|
        is_winner(snaps, before.ranks(snaps), among, key, w) ==> {
            let outcome = #[trigger] resolve_outcome(
                first_variable(snaps[w as int], key),
                snaps,
                before.interpolation(),
                0,
                Seq::empty(),
            );
            match r {
                Ok(Some(v)) => outcome == Outcome::Resolved((*v)@) && cache_gained(
                    before.cache_state(),
                    after.cache_state(),
                    (key, context_hash(context)),
                    ((*v)@, now),
                ),
                Ok(None) => false,
                Err(e) => is_outcome(Err(e), outcome) && cache_same(
                    before.cache_state(),
                    after.cache_state(),
                ),
            }
        }
}

/// Whether `r` is what the engine, going from `before` to `after`, makes of
/// `key` and the snapshots: a circle found by the check of the references
/// is the error; else the key is resolved among the places `among`.
pub open spec fn is_resolution(
    before: ResolutionEngine,
    after: ResolutionEngine,
    key: Seq<char>,
    context: WorkspaceContextView,
    snaps: Seq<SourceSnapshotView>,
    among: Set<usize>,
    now: u128,
    r: Result<Option<Arc<ResolvedVariable>>, AbundantisError>,
) -> bool {
    if cycle_found(before, snaps) {
        match r {
            Err(e) => is_check(before, after, snaps, Err(e)),
            Ok(_) => false,
        }
    } else {
        &&& after.graph_version() == if before.resolution().type_check {
            version_sum(snaps)
        } else {
            before.graph_version()
        }
        &&& is_choice(before, after, key, context, snaps, among, now, r)
    }
}

/// The places `0..n`.
pub open spec fn places_below(n: nat) -> Set<usize> {
    Set::new(|i: usize| i < n)
}

/// The places among which a key is resolved: all, or, with a filter of
/// active files, those that pass it and take part under the precedence
/// list.
pub open spec fn places_for(
    snaps: Seq<SourceSnapshotView>,
    filter: Option<Option<Seq<Seq<char>>>>,
    precedence: Seq<SourcePrecedence>,
) -> Set<usize> {
    match filter {
        Some(active) => eligible(snaps, active, precedence),
        None => places_below(snaps.len()),
    }
}

/// The identities of a list of snapshots, in order.
pub open spec fn snapshot_ids(snaps: Seq<SourceSnapshotView>) -> Seq<Seq<char>> {
    Seq::new(snaps.len(), |i: int| snaps[i].source_id)
}

/// Whether `r` answers the question for `key` that the engine, going from
/// `before` to `after`, was asked at `now`, with the sources of the
/// identities `ids` registered. A live entry of the cache is the answer.
/// Else the lookup leaves the engine as some `mid`; then either one of the
/// sources failed to load, or the snapshots that they yielded, one of each
/// source in the order of registration, were resolved. Without sources
/// nothing can fail to load.
pub open spec fn is_answer(
    before: ResolutionEngine,
    after: ResolutionEngine,
    key: Seq<char>,
    context: WorkspaceContextView,
    now: u128,
    r: Result<Option<Arc<ResolvedVariable>>, AbundantisError>,
    ids: Seq<Seq<char>>,
    filter: Option<Option<Seq<Seq<char>>>>,
) -> bool {
    let cache = before.cache_state();
    let found = lookup(cache.hot(), cache.warm(), cache.ttl(), (key, context_hash(context)), now);
    if cache.enabled() && found.found is Some {
        &&& r matches Ok(Some(v)) && Some((*v)@) == found.found
        &&& is_looked_up(before, after, key, context, now)
    } else {
        ||| (r matches Err(AbundantisError::Source(_)) && ids.len() > 0 && is_looked_up(
            before,
            after,
            key,
            context,
            now,
        ))
        ||| exists|mid: ResolutionEngine, snaps: Seq<SourceSnapshotView>| #[trigger]
            is_loaded(before, mid, after, key, context, now, r, snaps, ids, filter)
    }
}

/// Whether the engine went from `before` to `mid` by a lookup, and from
/// `mid` to `after` by resolving the snapshots `snaps`, which the sources
/// of the identities `ids` yielded, one each, in that order.
pub open spec fn is_loaded(
    before: ResolutionEngine,
    mid: ResolutionEngine,
    after: ResolutionEngine,
    key: Seq<char>,
    context: WorkspaceContextView,
    now: u128,
    r: Result<Option<Arc<ResolvedVariable>>, AbundantisError>,
    snaps: Seq<SourceSnapshotView>,
    ids: Seq<Seq<char>>,
    filter: Option<Option<Seq<Seq<char>>>>,
) -> bool {
    &&& is_looked_up(before, mid, key, context, now)
    &&& snapshot_ids(snaps) == ids
    &&& is_resolution(
        mid,
        after,
        key,
        context,
        snaps,
        places_for(snaps, filter, before.resolution().precedence@),
        now,
        r,
    )
}

/// Whether `after` is `before` after a lookup of the key in the cache.
pub open spec fn is_looked_up(
    before: ResolutionEngine,
    after: ResolutionEngine,
    key: Seq<char>,
    context: WorkspaceContextView,
    now: u128,
) -> bool {
    let cache = before.cache_state();
    let found = lookup(cache.hot(), cache.warm(), cache.ttl(), (key, context_hash(context)), now);
    &&& after.resolution() == before.resolution()
    &&& after.interpolation() == before.interpolation()
    &&& after.graph_edges() == before.graph_edges()
    &&& after.graph_version() == before.graph_version()
    &&& after.cache_state().enabled() == cache.enabled()
    &&& after.cache_state().ttl() == cache.ttl()
    &&& after.cache_state().capacity() == cache.capacity()
    &&& after.cache_state().hot() == if cache.enabled() {
        found.hot
    } else {
        cache.hot()
    }
    &&& after.cache_state().warm() == if cache.enabled() {
        found.warm
    } else {
        cache.warm()
    }
}

/// The places of the snapshots that may give a variable under a filter of
/// active files and a precedence list.
pub open spec fn eligible(
    snaps: Seq<SourceSnapshotView>,
    filter: Option<Seq<Seq<char>>>,
    precedence: Seq<SourcePrecedence>,
) -> Set<usize> {
    Set::new(
        |i: usize|
            i < snaps.len() && passes_filter(snaps[i as int].source_id, filter) && participates(
                snaps[i as int].source_id,
                precedence,
            ),
    )
}

/// Whether `r` lists the variables `merged`, each resolved on its own: the
/// first that fails is the error.
pub open spec fn is_listing(
    r: Result<Vec<Arc<ResolvedVariable>>, AbundantisError>,
    merged: Seq<ParsedVariableView>,
    snaps: Seq<SourceSnapshotView>,
    config: InterpolationConfig,
) -> bool {
    match r {
        Ok(list) => list@.len() == merged.len() && forall|i: int|
            0 <= i < merged.len() ==> resolve_outcome(#[trigger] merged[i], snaps, config, 0, Seq::empty())
                == Outcome::Resolved((*list@[i])@),
        Err(e) => exists|i: int|
            0 <= i < merged.len() && is_outcome(
                Err(e),
                resolve_outcome(#[trigger] merged[i], snaps, config, 0, Seq::empty()),
            ) && forall|j: int|
                0 <= j < i ==> resolve_outcome(#[trigger] merged[j], snaps, config, 0, Seq::empty())
                    is Resolved,
    }
}

/// Whether `r` lists what the snapshots at the places `among` give: the
/// places are put in the file order, and of the variables with one key the
/// first in that order is listed.
pub open spec fn is_listing_among(
    r: Result<Vec<Arc<ResolvedVariable>>, AbundantisError>,
    snaps: Seq<SourceSnapshotView>,
    ranks: Seq<int>,
    among: Set<usize>,
    config: InterpolationConfig,
) -> bool {
    exists|sorted: Seq<usize>|
        #![trigger is_ordered(sorted, ranks)]
        is_ordered(sorted, ranks) && sorted.to_set() == among && is_listing(
            r,
            first_of_each_key(variables_at(snaps, sorted)),
            snaps,
            config,
        )
}

/// Whether `r` is what the engine, going from `before` to `after`, lists
/// of the snapshots: a circle found by the check of the references is the
/// error; else the variables of the snapshots that pass the filter and take
/// part under the precedence list are listed, in the file order, the first
/// of each key.
pub open spec fn is_listing_result(
    before: ResolutionEngine,
    after: ResolutionEngine,
    snaps: Seq<SourceSnapshotView>,
    filter: Option<Seq<Seq<char>>>,
    r: Result<Vec<Arc<ResolvedVariable>>, AbundantisError>,
) -> bool {
    if cycle_found(before, snaps) {
        match r {
            Err(e) => is_check(before, after, snaps, Err(e)),
            Ok(_) => false,
        }
    } else {
        &&& is_check(before, after, snaps, Ok(()))
        &&& is_listing_among(
            r,
            snaps,
            before.ranks(snaps),
            eligible(snaps, filter, before.resolution().precedence@),
            before.interpolation(),
        )
        &&& before.resolution().precedence@.len() == 0 ==> (r matches Ok(list) && list@.len() == 0)
    }
}

/// Whether `r` is what the engine lists after loading the sources of the
/// identities `ids`: a source that fails is the error, and the engine stays
/// as it is; else what the sources yield, one snapshot each in the order of
/// registration, is listed. Without sources nothing can fail to load.
pub open spec fn is_loaded_listing(
    before: ResolutionEngine,
    after: ResolutionEngine,
    ids: Seq<Seq<char>>,
    filter: Option<Seq<Seq<char>>>,
    r: Result<Vec<Arc<ResolvedVariable>>, AbundantisError>,
) -> bool {
    ||| (r matches Err(AbundantisError::Source(_)) && ids.len() > 0 && after == before)
    ||| exists|snaps: Seq<SourceSnapshotView>|
        #[trigger] is_listing_result(before, after, snaps, filter, r) && snapshot_ids(snaps)
            == ids
}

/// Whether `after` is `before` with `value` filed under `key`.
pub open spec fn cache_gained(
    before: ResolutionCache,
    after: ResolutionCache,
    key: KeyView,
    value: CachedView,
) -> bool {
    &&& after.capacity() == before.capacity()
    &&& after.ttl() == before.ttl()
    &&& after.enabled() == before.enabled()
    &&& after.hot() == if before.enabled() {
        hot_put(before.hot(), before.capacity(), key, value)
    } else {
        before.hot()
    }
    &&& after.warm() == if before.enabled() {
        before.warm().insert(key, value)
    } else {
        before.warm()
    }
}

/// Whether two caches hold the same.
pub open spec fn cache_same(before: ResolutionCache, after: ResolutionCache) -> bool {
    &&& after.capacity() == before.capacity()
    &&& after.ttl() == before.ttl()
    &&& after.enabled() == before.enabled()
    &&& after.hot() == before.hot()
    &&& after.warm() == before.warm()
}

impl ResolutionEngine {
    pub closed spec fn resolution(&self) -> ResolutionConfig {
        self.resolution_config
    }

    pub closed spec fn interpolation(&self) -> InterpolationConfig {
        self.interpolation_config
    }

    /// The cache of the engine.
    pub closed spec fn cache_state(&self) -> ResolutionCache {
        self.cache
    }

    /// The references of the graph that was built last.
    pub closed spec fn graph_edges(&self) -> Seq<EdgeView> {
        self.graph.edges()
    }

    /// The version sum of the snapshots for which references were checked
    /// last.
    pub closed spec fn graph_version(&self) -> u64 {
        self.graph_version
    }

    /// The ranks of the snapshots in the configured file order.
    pub open spec fn ranks(&self, snaps: Seq<SourceSnapshotView>) -> Seq<int> {
        order_keys(snaps, texts(self.resolution().files.order@))
    }

    pub fn new(
        resolution: ResolutionConfig,
        interpolation: InterpolationConfig,
        cache: &CacheConfig,
    ) -> (r: Self)
        ensures
            r.resolution() == resolution,
            r.interpolation() == interpolation,
            r.graph_edges() == Seq::<EdgeView>::empty(),
            r.graph_version() == 0,
            r.cache_state().hot() == Seq::<HotEntry>::empty(),
            r.cache_state().warm() == crate::resolution::cache::empty_warm(),
            r.cache_state().enabled() == cache.enabled,
            r.cache_state().capacity() == if cache.hot_cache_size == 0 {
                1
            } else {
                cache.hot_cache_size as nat
            },
            r.cache_state().ttl() == crate::clock::duration_nanos(cache.ttl),
    {
        ResolutionEngine {
            resolution_config: resolution,
            interpolation_config: interpolation,
            cache: ResolutionCache::new(cache),
            graph: DependencyGraph::new(),
            graph_version: 0,
        }
    }

    /// Replaces the resolution settings and empties the cache.
    pub fn update_resolution_config(&mut self, config: ResolutionConfig)
        ensures
            final(self).resolution() == config,
            final(self).interpolation() == old(self).interpolation(),
            final(self).graph_edges() == old(self).graph_edges(),
            final(self).graph_version() == old(self).graph_version(),
            final(self).cache_state().hot() == Seq::<HotEntry>::empty(),
            final(self).cache_state().warm() == crate::resolution::cache::empty_warm(),
            final(self).cache_state().enabled() == old(self).cache_state().enabled(),
            final(self).cache_state().capacity() == old(self).cache_state().capacity(),
            final(self).cache_state().ttl() == old(self).cache_state().ttl(),
    {
        self.resolution_config = config;
        self.cache.clear();
    }

    /// Replaces the interpolation settings and empties the cache.
    pub fn update_interpolation_config(&mut self, config: InterpolationConfig)
        ensures
            final(self).interpolation() == config,
            final(self).resolution() == old(self).resolution(),
            final(self).graph_edges() == old(self).graph_edges(),
            final(self).graph_version() == old(self).graph_version(),
            final(self).cache_state().hot() == Seq::<HotEntry>::empty(),
            final(self).cache_state().warm() == crate::resolution::cache::empty_warm(),
            final(self).cache_state().enabled() == old(self).cache_state().enabled(),
            final(self).cache_state().capacity() == old(self).cache_state().capacity(),
            final(self).cache_state().ttl() == old(self).cache_state().ttl(),
    {
        self.interpolation_config = config;
        self.cache.clear();
    }

    /// Empties the cache.
    pub fn clear_cache(&mut self)
        ensures
            final(self).resolution() == old(self).resolution(),
            final(self).interpolation() == old(self).interpolation(),
            final(self).graph_edges() == old(self).graph_edges(),
            final(self).graph_version() == old(self).graph_version(),
            final(self).cache_state().hot() == Seq::<HotEntry>::empty(),
            final(self).cache_state().warm() == crate::resolution::cache::empty_warm(),
            final(self).cache_state().enabled() == old(self).cache_state().enabled(),
            final(self).cache_state().capacity() == old(self).cache_state().capacity(),
            final(self).cache_state().ttl() == old(self).cache_state().ttl(),
    {
        self.cache.clear();
    }

    pub fn interpolation_enabled(&self) -> (r: bool)
        ensures
            r == self.interpolation().enabled,
    {
        self.interpolation_config.enabled
    }

    pub fn precedence(&self) -> (r: Vec<SourcePrecedence>)
        ensures
            r@ == self.resolution().precedence@,
    {
        let mut out: Vec<SourcePrecedence> = Vec::new();
        let mut i: usize = 0;
        while i < self.resolution_config.precedence.len()
            invariant
                i <= self.resolution_config.precedence.len(),
                out@ == self.resolution_config.precedence@.take(i as int),
            decreases self.resolution_config.precedence.len() - i,
        {
            out.push(self.resolution_config.precedence[i]);
            assert(out@ =~= self.resolution_config.precedence@.take(i + 1));
            i += 1;
        }
        assert(self.resolution_config.precedence@.take(
            self.resolution_config.precedence.len() as int,
        ) =~= self.resolution_config.precedence@);
        out
    }

    pub fn cache(&self) -> (r: &ResolutionCache)
        ensures
            *r == self.cache_state(),
    {
        &self.cache
    }

    pub fn graph(&self) -> (r: &DependencyGraph)
        ensures
            r.edges() == self.graph_edges(),
    {
        &self.graph
    }

    /// Checks the references for circles, unless the version sum of the
    /// snapshots is the one they were checked for last.
    pub fn maybe_rebuild_graph(&mut self, snapshots: &Vec<SourceSnapshot>) -> (r: Result<
        (),
        AbundantisError,
    >)
        ensures
            final(self).resolution() == old(self).resolution(),
            final(self).interpolation() == old(self).interpolation(),
            final(self).cache_state() == old(self).cache_state(),
            old(self).resolution().type_check ==> is_check(
                *old(self),
                *final(self),
                snapshot_views(snapshots@),
                r,
            ),
            version_sum(snapshot_views(snapshots@)) == old(self).graph_version() ==> r is Ok
                && final(self).graph_version() == old(self).graph_version()
                && final(self).graph_edges() == old(self).graph_edges(),
            version_sum(snapshot_views(snapshots@)) != old(self).graph_version() ==> {
                &&& final(self).graph_edges() == snapshots_edges(snapshot_views(snapshots@))
                &&& match r {
                    Ok(_) => final(self).graph_version() == version_sum(
                        snapshot_views(snapshots@),
                    ) && forall|i: int|
                        0 <= i < all_keys(snapshot_views(snapshots@)).len() ==> !reaches_cycle(
                            final(self).graph_edges(),
                            #[trigger] all_keys(snapshot_views(snapshots@))[i],
                        ),
                    Err(e) => final(self).graph_version() == old(self).graph_version()
                        && exists|i: int|
                        #![trigger all_keys(snapshot_views(snapshots@))[i]]
                        is_first_circular(
                            final(self).graph_edges(),
                            all_keys(snapshot_views(snapshots@)),
                            i,
                        ) && reports_cycle(
                            e,
                            final(self).graph_edges(),
                            all_keys(snapshot_views(snapshots@))[i],
                        ),
                }
            },
    {
        let current = snapshots_version(snapshots);
        if current != self.graph_version {
            match build_dependency_graph(&mut self.graph, snapshots) {
                Ok(_) => {},
                Err(e) => {
                    return Err(e);
                },
            }
            self.graph_version = current;
        }
        Ok(())
    }

    /// The places of all snapshots in the file order.
    pub fn sort_snapshots_by_file_order(&self, snapshots: &Vec<SourceSnapshot>) -> (r: Vec<usize>)
        requires
            self.resolution().files.order@.len() < usize::MAX,
        ensures
            is_ordered(r@, self.ranks(snapshot_views(snapshots@))),
            r@.len() == snapshots@.len(),
            forall|i: usize| r@.contains(i) <==> i < snapshots@.len(),
    {
        let places = all_places(snapshots.len());
        let r = self.sort_snapshot_refs_by_file_order(snapshots, &places);
        proof {
            assert forall|i: usize| r@.contains(i) <==> i < snapshots@.len() by {
                if i < snapshots@.len() {
                    assert(places@[i as int] == i);
                    assert(places@.contains(i));
                    assert(places@.to_set().contains(i));
                    assert(r@.to_set().contains(i));
                }
                if r@.contains(i) {
                    assert(r@.to_set().contains(i));
                    assert(places@.contains(i));
                }
            }
        }
        r
    }

    /// The places `places` in the file order; places of one rank keep the
    /// order that they have in `places`. The places may stand in any order
    /// and more than once; each names a snapshot of the list.
    pub fn sort_snapshot_refs_by_file_order(
        &self,
        snapshots: &Vec<SourceSnapshot>,
        places: &Vec<usize>,
    ) -> (r: Vec<usize>)
        requires
            self.resolution().files.order@.len() < usize::MAX,
            in_range(places@, snapshots@.len() as int),
        ensures
            r@ == rank_sorted(places@, self.ranks(snapshot_views(snapshots@))),
            in_range(r@, snapshots@.len() as int),
            is_rising(places@, snapshots@.len() as int) ==> is_ordered(
                r@,
                self.ranks(snapshot_views(snapshots@)),
            ),
            r@.to_set() == places@.to_set(),
            r@.len() == places@.len(),
    {
        let keys = file_order_indices(snapshots, &self.resolution_config.files.order);
        let r = sort_by_rank(places, &keys);
        proof {
            assert(Seq::new(keys@.len(), |i: int| keys@[i] as int) =~= self.ranks(
                snapshot_views(snapshots@),
            ));
        }
        r
    }

    /// Resolves `key` among the snapshots at the places `places`: the
    /// places are put in the file order, the last of them at which the key
    /// is defined gives the variable, which is interpolated over all
    /// snapshots and cached as of `now`. The places may stand in any order
    /// and more than once; each names a snapshot of the list. Of places
    /// that rise, the one that wins the key gives the variable.
    pub fn resolve_among(
        &mut self,
        key: &str,
        context: &WorkspaceContext,
        snapshots: &Vec<SourceSnapshot>,
        places: &Vec<usize>,
        now: u128,
    ) -> (r: Result<Option<Arc<ResolvedVariable>>, AbundantisError>)
        requires
            old(self).resolution().files.order@.len() < usize::MAX,
            in_range(places@, snapshots@.len() as int),
        ensures
            final(self).graph_edges() == old(self).graph_edges(),
            final(self).graph_version() == old(self).graph_version(),
            is_choice_of(
                *old(self),
                *final(self),
                key@,
                context@,
                snapshot_views(snapshots@),
                last_definer(
                    snapshot_views(snapshots@),
                    rank_sorted(places@, old(self).ranks(snapshot_views(snapshots@))),
                    key@,
                ),
                now,
                r,
            ),
            is_rising(places@, snapshots@.len() as int) ==> is_choice(
                *old(self),
                *final(self),
                key@,
                context@,
                snapshot_views(snapshots@),
                places@.to_set(),
                now,
                r,
            ),
    {
        let ghost snaps = snapshot_views(snapshots@);
        let ghost ranks = self.ranks(snaps);
        let sorted = self.sort_snapshot_refs_by_file_order(snapshots, places);
        let ghost rising = is_rising(places@, snapshots@.len() as int);
        match last_defining(snapshots, &sorted, key) {
            None => {
                proof {
                    if rising {
                    assert forall|w: usize| !is_winner(snaps, ranks, places@.to_set(), key@, w) by {
                        if is_winner(snaps, ranks, places@.to_set(), key@, w) {
                            assert(sorted@.to_set().contains(w));
                            assert(sorted@.contains(w));
                            let b = choose|b: int| 0 <= b < sorted@.len() && sorted@[b] == w;
                            assert(!defines(snaps[sorted@[b] as int], key@));
                        }
                    }
                    assert(nobody_defines(snaps, places@.to_set(), key@)) by {
                        assert forall|j: usize|
                            places@.to_set().contains(j) && j < snaps.len() implies !defines(
                            #[trigger] snaps[j as int],
                            key@,
                        ) by {
                            assert(sorted@.to_set().contains(j));
                            assert(sorted@.contains(j));
                            let b = choose|b: int| 0 <= b < sorted@.len() && sorted@[b] == j;
                            assert(!defines(snaps[sorted@[b] as int], key@));
                        }
                    }
                    }
                }
                Ok(None)
            },
            Some((at, v)) => {
                let place = sorted[at];
                let variable = &snapshots[place].variables[v];
                let mut visited: Vec<String> = Vec::new();
                proof {
                    assert(texts(visited@) =~= Seq::<Seq<char>>::empty());
                    if rising {
                    lemma_last_defining_wins(snaps, ranks, sorted@, key@, at as int);
                    // the winner is the only one
                    assert(sorted@.contains(place));
                    assert(sorted@.to_set().contains(place));
                    assert(is_winner(snaps, ranks, places@.to_set(), key@, place));
                    assert forall|w: usize|
                        is_winner(snaps, ranks, places@.to_set(), key@, w) implies w
                        == place by {
                        if w != place {
                            assert(defines(snaps[w as int], key@));
                            assert(defines(snaps[place as int], key@));
                        }
                    }
                    assert(!nobody_defines(snaps, places@.to_set(), key@)) by {
                        assert(sorted@.contains(place));
                        assert(sorted@.to_set().contains(place));
                    }
                    }
                }
                match resolve_variable(
                    &self.interpolation_config,
                    variable,
                    snapshots,
                    0,
                    &mut visited,
                ) {
                    Ok(resolved) => {
                        let cache_key = CacheKey::new(key, hash_context(context));
                        self.cache.insert_at(cache_key, resolved.clone(), now);
                        Ok(Some(resolved))
                    },
                    Err(e) => Err(e),
                }
            },
        }
    }

    /// Resolves `key` among all snapshots.
    pub fn resolve_inner(
        &mut self,
        key: &str,
        context: &WorkspaceContext,
        snapshots: &Vec<SourceSnapshot>,
        now: u128,
    ) -> (r: Result<Option<Arc<ResolvedVariable>>, AbundantisError>)
        requires
            old(self).resolution().files.order@.len() < usize::MAX,
        ensures
            final(self).graph_edges() == old(self).graph_edges(),
            final(self).graph_version() == old(self).graph_version(),
            is_choice(
                *old(self),
                *final(self),
                key@,
                context@,
                snapshot_views(snapshots@),
                places_below(snapshots@.len()),
                now,
                r,
            ),
    {
        let places = all_places(snapshots.len());
        proof {
            assert(places@.to_set() =~= places_below(snapshots@.len())) by {
                assert forall|i: usize| places@.to_set().contains(i) <==> i < snapshots@.len() by {
                    if i < snapshots@.len() {
                        assert(places@[i as int] == i);
                        assert(places@.contains(i));
                    }
                    if places@.contains(i) {
                        let w = choose|w: int| 0 <= w < places@.len() && places@[w] == i;
                    }
                }
            }
        }
        self.resolve_among(key, context, snapshots, &places, now)
    }

    /// Checks the references where type checking is on.
    fn check(&mut self, snapshots: &Vec<SourceSnapshot>) -> (r: Result<(), AbundantisError>)
        ensures
            is_check(*old(self), *final(self), snapshot_views(snapshots@), r),
    {
        if self.resolution_config.type_check {
            self.maybe_rebuild_graph(snapshots)
        } else {
            Ok(())
        }
    }

    /// The places of the snapshots that may give a variable under the filter
    /// and the configured precedence list, in rising order.
    pub fn eligible_places(&self, snapshots: &Vec<SourceSnapshot>, filter: Option<&Vec<SourceId>>) -> (r:
        Vec<usize>)
        ensures
            is_rising(r@, snapshots@.len() as int),
            r@.to_set() == eligible(
                snapshot_views(snapshots@),
                filter_texts(filter),
                self.resolution().precedence@,
            ),
            self.resolution().precedence@.len() == 0 ==> r@.len() == 0,
    {
        let passed = filter_snapshots_ref(snapshots, filter);
        let r = filter_by_source_type(snapshots, &passed, &self.resolution_config.precedence);
        proof {
            let snaps = snapshot_views(snapshots@);
            let spec_filter = filter_texts(filter);
            let target = eligible(snaps, spec_filter, self.resolution().precedence@);
            assert forall|i: usize| r@.to_set().contains(i) <==> target.contains(i) by {
                if r@.contains(i) {
                    assert(passed@.contains(i));
                    assert(snaps[i as int] == snapshots@[i as int]@);
                }
                if target.contains(i) {
                    assert(snaps[i as int] == snapshots@[i as int]@);
                    assert(passes_filter(snapshots@[i as int].source_id@, spec_filter));
                    assert(passed@.contains(i));
                    assert(r@.contains(i));
                }
            }
            assert(r@.to_set() =~= target);
        }
        r
    }

    /// Resolves `key` from the snapshots, as of `now`: the references are
    /// checked where type checking is on, then the key is resolved among all
    /// snapshots.
    pub fn resolve_snapshots(
        &mut self,
        key: &str,
        context: &WorkspaceContext,
        snapshots: &Vec<SourceSnapshot>,
        now: u128,
    ) -> (r: Result<Option<Arc<ResolvedVariable>>, AbundantisError>)
        requires
            old(self).resolution().files.order@.len() < usize::MAX,
        ensures
            is_resolution(
                *old(self),
                *final(self),
                key@,
                context@,
                snapshot_views(snapshots@),
                places_below(snapshots@.len()),
                now,
                r,
            ),
    {
        match self.check(snapshots) {
            Ok(_) => {},
            Err(e) => {
                return Err(e);
            },
        }
        let ghost mid = *self;
        let r = self.resolve_inner(key, context, snapshots, now);
        proof {
            assert(mid.ranks(snapshot_views(snapshots@)) == old(self).ranks(
                snapshot_views(snapshots@),
            ));
        }
        r
    }

    /// Resolves `key` from the snapshots among the sources that pass the
    /// filter of active files and take part under the precedence list.
    pub fn resolve_snapshots_with_filter(
        &mut self,
        key: &str,
        context: &WorkspaceContext,
        snapshots: &Vec<SourceSnapshot>,
        filter: Option<&Vec<SourceId>>,
        now: u128,
    ) -> (r: Result<Option<Arc<ResolvedVariable>>, AbundantisError>)
        requires
            old(self).resolution().files.order@.len() < usize::MAX,
        ensures
            is_resolution(
                *old(self),
                *final(self),
                key@,
                context@,
                snapshot_views(snapshots@),
                eligible(
                    snapshot_views(snapshots@),
                    filter_texts(filter),
                    old(self).resolution().precedence@,
                ),
                now,
                r,
            ),
    {
        let places = self.eligible_places(snapshots, filter);
        match self.check(snapshots) {
            Ok(_) => {},
            Err(e) => {
                return Err(e);
            },
        }
        let ghost mid = *self;
        let r = self.resolve_among(key, context, snapshots, &places, now);
        proof {
            assert(mid.ranks(snapshot_views(snapshots@)) == old(self).ranks(
                snapshot_views(snapshots@),
            ));
        }
        r
    }

    /// Resolves `key` as of `now`. A live entry of the cache answers, and
    /// no source is loaded. Else every source is loaded; a source that fails
    /// is the error; what they yield is resolved as `resolve_snapshots`
    /// says.
    pub fn resolve_at<S: EnvSource>(
        &mut self,
        key: &str,
        context: &WorkspaceContext,
        registry: &SourceRegistry<S>,
        now: u128,
    ) -> (r: Result<Option<Arc<ResolvedVariable>>, AbundantisError>)
        requires
            old(self).resolution().files.order@.len() < usize::MAX,
        ensures
            is_answer(
                *old(self),
                *final(self),
                key@,
                context@,
                now,
                r,
                source_ids(registry.sources()),
                None,
            ),
    {
        let cache_key = CacheKey::new(key, hash_context(context));
        match self.cache.get_at(&cache_key, now) {
            Some(cached) => {
                return Ok(Some(cached));
            },
            None => {},
        }
        let ghost mid = *self;
        let snapshots = match registry.load_all() {
            Ok(snapshots) => snapshots,
            Err(e) => {
                return Err(AbundantisError::Source(e));
            },
        };
        let r = self.resolve_snapshots(key, context, &snapshots, now);
        proof {
            let snaps = snapshot_views(snapshots@);
            assert(snapshot_ids(snaps) =~= source_ids(registry.sources()));
            assert(is_loaded(
                *old(self),
                mid,
                *self,
                key@,
                context@,
                now,
                r,
                snaps,
                source_ids(registry.sources()),
                None,
            ));
        }
        r
    }

    /// Resolves `key` now.
    pub fn resolve<S: EnvSource>(
        &mut self,
        key: &str,
        context: &WorkspaceContext,
        registry: &SourceRegistry<S>,
    ) -> (r: Result<Option<Arc<ResolvedVariable>>, AbundantisError>)
        requires
            old(self).resolution().files.order@.len() < usize::MAX,
        ensures
            exists|now: u128| #[trigger]
                is_answer(
                    *old(self),
                    *final(self),
                    key@,
                    context@,
                    now,
                    r,
                    source_ids(registry.sources()),
                    None,
                ),
    {
        let now = self.cache.now();
        self.resolve_at(key, context, registry, now)
    }

    /// Resolves `key` as of `now` among the sources that pass the filter of
    /// active files and take part under the precedence list.
    pub fn resolve_with_filter_at<S: EnvSource>(
        &mut self,
        key: &str,
        context: &WorkspaceContext,
        registry: &SourceRegistry<S>,
        filter: Option<&Vec<SourceId>>,
        now: u128,
    ) -> (r: Result<Option<Arc<ResolvedVariable>>, AbundantisError>)
        requires
            old(self).resolution().files.order@.len() < usize::MAX,
        ensures
            is_answer(
                *old(self),
                *final(self),
                key@,
                context@,
                now,
                r,
                source_ids(registry.sources()),
                Some(
                    filter_texts(filter),
                ),
            ),
    {
        let cache_key = CacheKey::new(key, hash_context(context));
        match self.cache.get_at(&cache_key, now) {
            Some(cached) => {
                return Ok(Some(cached));
            },
            None => {},
        }
        let ghost mid = *self;
        let snapshots = match registry.load_all() {
            Ok(snapshots) => snapshots,
            Err(e) => {
                return Err(AbundantisError::Source(e));
            },
        };
        let r = self.resolve_snapshots_with_filter(key, context, &snapshots, filter, now);
        proof {
            let snaps = snapshot_views(snapshots@);
            assert(snapshot_ids(snaps) =~= source_ids(registry.sources()));
            let among = eligible(
                snaps,
                filter_texts(filter),
                old(self).resolution().precedence@,
            );
            assert(is_loaded(
                *old(self),
                mid,
                *self,
                key@,
                context@,
                now,
                r,
                snaps,
                source_ids(registry.sources()),
                Some(
                    filter_texts(filter),
                ),
            ));
        }
        r
    }

    /// Resolves `key` now among the sources that pass the filter of active
    /// files and take part under the precedence list.
    pub fn resolve_with_filter<S: EnvSource>(
        &mut self,
        key: &str,
        context: &WorkspaceContext,
        registry: &SourceRegistry<S>,
        filter: Option<&Vec<SourceId>>,
    ) -> (r: Result<Option<Arc<ResolvedVariable>>, AbundantisError>)
        requires
            old(self).resolution().files.order@.len() < usize::MAX,
        ensures
            exists|now: u128| #[trigger]
                is_answer(
                    *old(self),
                    *final(self),
                    key@,
                    context@,
                    now,
                    r,
                    source_ids(registry.sources()),
                    Some(
                        filter_texts(filter),
                    ),
                ),
    {
        let now = self.cache.now();
        self.resolve_with_filter_at(key, context, registry, filter, now)
    }

    /// Lists the variables of the snapshots that pass the filter: the
    /// references are checked where type checking is on, then the variables
    /// are listed as `all_variables_inner` says.
    pub fn all_variables_snapshots(
        &mut self,
        snapshots: &Vec<SourceSnapshot>,
        filter: Option<&Vec<SourceId>>,
    ) -> (r: Result<Vec<Arc<ResolvedVariable>>, AbundantisError>)
        requires
            old(self).resolution().files.order@.len() < usize::MAX,
        ensures
            is_listing_result(
                *old(self),
                *final(self),
                snapshot_views(snapshots@),
                filter_texts(filter),
                r,
            ),
    {
        let filtered = filter_snapshots_ref(snapshots, filter);
        match self.check(snapshots) {
            Ok(_) => {},
            Err(e) => {
                return Err(e);
            },
        }
        let r = self.all_variables_inner(snapshots, &filtered);
        proof {
            let snaps = snapshot_views(snapshots@);
            let spec_filter = filter_texts(filter);
            let among = Set::new(
                |i: usize|
                    filtered@.contains(i) && participates(
                        snaps[i as int].source_id,
                        self.resolution().precedence@,
                    ),
            );
            assert(among =~= eligible(snaps, spec_filter, old(self).resolution().precedence@)) by {
                assert forall|i: usize| among.contains(i) <==> eligible(
                    snaps,
                    spec_filter,
                    old(self).resolution().precedence@,
                ).contains(i) by {
                    if i < snaps.len() {
                        assert(snaps[i as int] == snapshots@[i as int]@);
                    }
                    if filtered@.contains(i) {
                        assert(i < snapshots@.len());
                    }
                }
            }
            assert(self.ranks(snaps) == old(self).ranks(snaps));
        }
        r
    }

    /// Loads every source and lists the variables of all of them.
    pub fn all_variables<S: EnvSource>(&mut self, registry: &SourceRegistry<S>) -> (r: Result<
        Vec<Arc<ResolvedVariable>>,
        AbundantisError,
    >)
        requires
            old(self).resolution().files.order@.len() < usize::MAX,
        ensures
            is_loaded_listing(*old(self), *final(self), source_ids(registry.sources()), None, r),
    {
        self.all_variables_with_filter(registry, None)
    }

    /// Loads every source and lists the variables of those that pass the
    /// filter of active files.
    pub fn all_variables_with_filter<S: EnvSource>(
        &mut self,
        registry: &SourceRegistry<S>,
        filter: Option<&Vec<SourceId>>,
    ) -> (r: Result<Vec<Arc<ResolvedVariable>>, AbundantisError>)
        requires
            old(self).resolution().files.order@.len() < usize::MAX,
        ensures
            is_loaded_listing(
                *old(self),
                *final(self),
                source_ids(registry.sources()),
                filter_texts(filter),
                r,
            ),
    {
        let snapshots = match registry.load_all() {
            Ok(snapshots) => snapshots,
            Err(e) => {
                return Err(AbundantisError::Source(e));
            },
        };
        let r = self.all_variables_snapshots(&snapshots, filter);
        proof {
            assert(snapshot_ids(snapshot_views(snapshots@)) =~= source_ids(registry.sources()));
            assert(is_listing_result(
                *old(self),
                *self,
                snapshot_views(snapshots@),
                filter_texts(filter),
                r,
            ));
        }
        r
    }

    /// Lists the variables of the snapshots at the places `filtered` that
    /// take part under the precedence list, in the file order; of the
    /// variables with one key the first is listed. The places may stand in
    /// any order and more than once; each names a snapshot of the list.
    pub fn all_variables_inner(
        &self,
        all_snapshots: &Vec<SourceSnapshot>,
        filtered: &Vec<usize>,
    ) -> (r: Result<Vec<Arc<ResolvedVariable>>, AbundantisError>)
        requires
            self.resolution().files.order@.len() < usize::MAX,
            in_range(filtered@, all_snapshots@.len() as int),
        ensures
            is_listing(
                r,
                first_of_each_key(
                    variables_at(
                        snapshot_views(all_snapshots@),
                        rank_sorted(
                            taking_part(
                                snapshot_views(all_snapshots@),
                                filtered@,
                                self.resolution().precedence@,
                            ),
                            self.ranks(snapshot_views(all_snapshots@)),
                        ),
                    ),
                ),
                snapshot_views(all_snapshots@),
                self.interpolation(),
            ),
            is_rising(filtered@, all_snapshots@.len() as int) ==> is_listing_among(
                r,
                snapshot_views(all_snapshots@),
                self.ranks(snapshot_views(all_snapshots@)),
                Set::new(
                    |i: usize|
                        filtered@.contains(i) && participates(
                            snapshot_views(all_snapshots@)[i as int].source_id,
                            self.resolution().precedence@,
                        ),
                ),
                self.interpolation(),
            ),
            self.resolution().precedence@.len() == 0 ==> (r matches Ok(list) && list@.len() == 0),
    {
        let ghost snaps = snapshot_views(all_snapshots@);
        let ghost config = self.interpolation_config;
        let type_filtered = filter_by_source_type(
            all_snapshots,
            filtered,
            &self.resolution_config.precedence,
        );
        let sorted = self.sort_snapshot_refs_by_file_order(all_snapshots, &type_filtered);
        let ghost among = Set::new(
            |i: usize|
                filtered@.contains(i) && participates(
                    snaps[i as int].source_id,
                    self.resolution().precedence@,
                ),
        );
        let ghost rising = is_rising(filtered@, all_snapshots@.len() as int);
        let ghost wanted = rank_sorted(
            taking_part(snaps, filtered@, self.resolution().precedence@),
            self.ranks(snaps),
        );
        proof {
            if rising {
            assert(sorted@.to_set() =~= among) by {
                assert forall|i: usize| sorted@.to_set().contains(i) <==> among.contains(i) by {
                    if sorted@.to_set().contains(i) {
                        assert(type_filtered@.to_set().contains(i));
                        assert(type_filtered@.contains(i));
                        assert(snaps[i as int] == all_snapshots@[i as int]@);
                    }
                    if among.contains(i) {
                        assert(filtered@.contains(i));
                        let w = choose|w: int| 0 <= w < filtered@.len() && filtered@[w] == i;
                        assert(snaps[i as int] == all_snapshots@[i as int]@);
                        assert(type_filtered@.contains(i));
                        assert(type_filtered@.to_set().contains(i));
                    }
                }
            }
            }
        }
        let mut seen_keys: Vec<String> = Vec::new();
        let mut results: Vec<Arc<ResolvedVariable>> = Vec::new();
        let mut a: usize = 0;
        proof {
            assert(sorted@.take(0) =~= Seq::<usize>::empty());
            assert(texts(seen_keys@) =~= variable_keys(
                first_of_each_key(variables_at(snaps, sorted@.take(0))),
            ));
        }
        while a < sorted.len()
            invariant
                a <= sorted.len(),
                snaps == snapshot_views(all_snapshots@),
                config == self.interpolation_config,
                rising ==> is_ordered(sorted@, self.ranks(snaps)),
                rising ==> sorted@.to_set() == among,
                sorted@ == wanted,
                rising == is_rising(filtered@, all_snapshots@.len() as int),
                wanted == rank_sorted(
                    taking_part(snaps, filtered@, self.resolution().precedence@),
                    self.ranks(snaps),
                ),
                in_range(sorted@, all_snapshots@.len() as int),
                among == Set::new(
                    |i: usize|
                        filtered@.contains(i) && participates(
                            snaps[i as int].source_id,
                            self.resolution().precedence@,
                        ),
                ),
                sorted@.len() > 0 ==> self.resolution().precedence@.len() > 0,
                self.ranks(snaps).len() == all_snapshots@.len(),
                texts(seen_keys@) == variable_keys(
                    first_of_each_key(variables_at(snaps, sorted@.take(a as int))),
                ),
                is_listing(
                    Ok(results),
                    first_of_each_key(variables_at(snaps, sorted@.take(a as int))),
                    snaps,
                    config,
                ),
            decreases sorted.len() - a,
        {
            let place = sorted[a];
            let ghost done = variables_at(snaps, sorted@.take(a as int));
            let ghost vars = snaps[place as int].variables;
            let mut b: usize = 0;
            proof {
                assert(sorted@.take(a + 1).drop_last() =~= sorted@.take(a as int));
                assert(sorted@.take(a + 1).last() == place);
                assert(vars == variable_views(all_snapshots@[place as int].variables@));
                assert(vars.take(0) =~= Seq::<ParsedVariableView>::empty());
                assert(done + vars.take(0) =~= done);
            }
            while b < all_snapshots[place].variables.len()
                invariant
                    a < sorted.len(),
                    place == sorted@[a as int],
                    place < all_snapshots@.len(),
                    b <= all_snapshots@[place as int].variables@.len(),
                    snaps == snapshot_views(all_snapshots@),
                    config == self.interpolation_config,
                    rising ==> is_ordered(sorted@, self.ranks(snaps)),
                    rising ==> sorted@.to_set() == among,
                    sorted@ == wanted,
                rising == is_rising(filtered@, all_snapshots@.len() as int),
                wanted == rank_sorted(
                    taking_part(snaps, filtered@, self.resolution().precedence@),
                    self.ranks(snaps),
                ),
                    among == Set::new(
                        |i: usize|
                            filtered@.contains(i) && participates(
                                snaps[i as int].source_id,
                                self.resolution().precedence@,
                            ),
                    ),
                    self.resolution().precedence@.len() > 0,
                    done == variables_at(snaps, sorted@.take(a as int)),
                    vars == snaps[place as int].variables,
                    vars == variable_views(all_snapshots@[place as int].variables@),
                    texts(seen_keys@) == variable_keys(
                        first_of_each_key(done + vars.take(b as int)),
                    ),
                    is_listing(
                        Ok(results),
                        first_of_each_key(done + vars.take(b as int)),
                        snaps,
                        config,
                    ),
                decreases all_snapshots@[place as int].variables@.len() - b,
            {
                let variable = &all_snapshots[place].variables[b];
                let ghost before = done + vars.take(b as int);
                let ghost after = done + vars.take(b + 1);
                let ghost merged = first_of_each_key(before);
                proof {
                    assert(after.drop_last() =~= before);
                    assert(after.last() == variable@);
                }
                if !crate::text::contains_text(&seen_keys, variable.key.as_str()) {
                    let mut visited: Vec<String> = Vec::new();
                    proof {
                        assert(texts(visited@) =~= Seq::<Seq<char>>::empty());
                        assert(first_of_each_key(after) == merged.push(variable@));
                    }
                    match resolve_variable(
                        &self.interpolation_config,
                        variable,
                        all_snapshots,
                        0,
                        &mut visited,
                    ) {
                        Ok(resolved) => {
                            let ghost old_results = results@;
                            let ghost old_seen = texts(seen_keys@);
                            results.push(resolved);
                            seen_keys.push(variable.key.clone());
                            proof {
                                let next = merged.push(variable@);
                                assert(texts(seen_keys@) =~= old_seen.push(variable@.key));
                                assert(variable_keys(next) =~= variable_keys(merged).push(
                                    variable@.key,
                                ));
                                assert forall|i: int| 0 <= i < next.len() implies resolve_outcome(
                                    #[trigger] next[i],
                                    snaps,
                                    config,
                                    0,
                                    Seq::empty(),
                                ) == Outcome::Resolved((*results@[i])@) by {
                                    if i < merged.len() {
                                        assert(next[i] == merged[i]);
                                        assert(results@[i] == old_results[i]);
                                    }
                                }
                            }
                        },
                        Err(e) => {
                            proof {
                                let next = merged.push(variable@);
                                let full = first_of_each_key(variables_at(snaps, sorted@));
                                lemma_first_of_each_key_grows(
                                    snaps,
                                    sorted@,
                                    a as int,
                                    b as int,
                                );
                                assert(next.is_prefix_of(full));
                                assert(next =~= full.subrange(0, next.len() as int));
                                let i = merged.len() as int;
                                assert(full[i] == next[i]);
                                assert(next[i] == variable@);
                                assert forall|j: int| 0 <= j < i implies resolve_outcome(
                                    #[trigger] full[j],
                                    snaps,
                                    config,
                                    0,
                                    Seq::empty(),
                                ) is Resolved by {
                                    assert(full[j] == next[j]);
                                    assert(next[j] == merged[j]);
                                }
                                assert(is_listing(Err(e), full, snaps, config));
                                if rising {
                                    assert(is_ordered(sorted@, self.ranks(snaps)));
                                }
                            }
                            return Err(e);
                        },
                    }
                }
                b += 1;
            }
            proof {
                assert(vars.take(vars.len() as int) =~= vars);
            }
            a += 1;
        }
        proof {
            assert(sorted@.take(sorted.len() as int) =~= sorted@);
            if rising {
                assert(is_ordered(sorted@, self.ranks(snaps)));
            }
            if self.resolution().precedence@.len() == 0 {
                assert(sorted@.len() == 0);
                assert(variables_at(snaps, sorted@) =~= Seq::<ParsedVariableView>::empty());
            }
        }
        Ok(results)
    }
}

/// The variables listed so far begin the list of all variables.
proof fn lemma_first_of_each_key_grows(
    snaps: Seq<SourceSnapshotView>,
    sorted: Seq<usize>,
    a: int,
    b: int,
)
    requires
        0 <= a < sorted.len(),
        0 <= b < snaps[sorted[a] as int].variables.len(),
    ensures
        first_of_each_key(
            variables_at(snaps, sorted.take(a)) + snaps[sorted[a] as int].variables.take(b + 1),
        ).is_prefix_of(first_of_each_key(variables_at(snaps, sorted))),
{
    let vars = snaps[sorted[a] as int].variables;
    let part = variables_at(snaps, sorted.take(a)) + vars.take(b + 1);
    let all = variables_at(snaps, sorted);
    lemma_variables_at_prefix(snaps, sorted, a + 1);
    assert(sorted.take(a + 1).drop_last() =~= sorted.take(a));
    assert(sorted.take(a + 1).last() == sorted[a]);
    let upto = variables_at(snaps, sorted.take(a + 1));
    assert(upto == variables_at(snaps, sorted.take(a)) + vars);
    assert(part.is_prefix_of(upto)) by {
        assert(part =~= upto.subrange(0, part.len() as int));
    }
    assert(part.is_prefix_of(all)) by {
        assert(upto =~= all.subrange(0, upto.len() as int));
        assert forall|i: int| 0 <= i < part.len() implies part[i] == all[i] by {
            assert(upto[i] == part[i]);
            assert(all.subrange(0, upto.len() as int)[i] == all[i]);
        }
        assert(part =~= all.subrange(0, part.len() as int));
    }
    lemma_first_of_each_key_prefix(part, all);
}

/// The variables at the first places begin the variables at all places.
proof fn lemma_variables_at_prefix(snaps: Seq<SourceSnapshotView>, sorted: Seq<usize>, a: int)
    requires
        0 <= a <= sorted.len(),
    ensures
        variables_at(snaps, sorted.take(a)).is_prefix_of(variables_at(snaps, sorted)),
    decreases sorted.len() - a,
{
    let here = variables_at(snaps, sorted.take(a));
    let all = variables_at(snaps, sorted);
    if a == sorted.len() {
        assert(sorted.take(a) =~= sorted);
        assert(here =~= all.subrange(0, here.len() as int));
    } else {
        lemma_variables_at_prefix(snaps, sorted, a + 1);
        let next = variables_at(snaps, sorted.take(a + 1));
        assert(sorted.take(a + 1).drop_last() =~= sorted.take(a));
        assert(next == here + snaps[sorted.take(a + 1).last() as int].variables);
        assert(next =~= all.subrange(0, next.len() as int));
        assert forall|i: int| 0 <= i < here.len() implies here[i] == all[i] by {
            assert(next[i] == here[i]);
            assert(all.subrange(0, next.len() as int)[i] == all[i]);
        }
        assert(here =~= all.subrange(0, here.len() as int));
    }
}

/// Listing the first of each key of a beginning gives a beginning of the
/// listing of the whole.
proof fn lemma_first_of_each_key_prefix(part: Seq<ParsedVariableView>, all: Seq<ParsedVariableView>)
    requires
        part.is_prefix_of(all),
    ensures
        first_of_each_key(part).is_prefix_of(first_of_each_key(all)),
    decreases all.len(),
{
    if part.len() == all.len() {
        assert(part =~= all);
        let f = first_of_each_key(all);
        assert(f =~= f.subrange(0, f.len() as int));
    } else {
        let less = all.drop_last();
        assert(part.is_prefix_of(less)) by {
            assert(part =~= all.subrange(0, part.len() as int));
            assert(part =~= less.subrange(0, part.len() as int));
        }
        lemma_first_of_each_key_prefix(part, less);
        let fp = first_of_each_key(part);
        let fl = first_of_each_key(less);
        let fa = first_of_each_key(all);
        assert(fp =~= fl.subrange(0, fp.len() as int));
        assert(fl.is_prefix_of(fa)) by {
            assert(fl =~= fa.subrange(0, fl.len() as int));
        }
        assert(fp =~= fa.subrange(0, fp.len() as int)) by {
            assert forall|i: int| 0 <= i < fp.len() implies fp[i] == fa[i] by {
                assert(fl.subrange(0, fp.len() as int)[i] == fl[i]);
                assert(fa.subrange(0, fl.len() as int)[i] == fa[i]);
            }
        }
    }
}

/// A variable that a choice returns has the key that was asked for.
pub proof fn lemma_choice_key(
    before: ResolutionEngine,
    after: ResolutionEngine,
    key: Seq<char>,
    context: WorkspaceContextView,
    snaps: Seq<SourceSnapshotView>,
    among: Set<usize>,
    now: u128,
    r: Result<Option<Arc<ResolvedVariable>>, AbundantisError>,
)
    requires
        is_choice(before, after, key, context, snaps, among, now, r),
        r matches Ok(Some(_)),
        forall|i: usize| among.contains(i) ==> i < snaps.len(),
    ensures
        r matches Ok(Some(v)) && (*v)@.key == key,
{
    if nobody_defines(snaps, among, key) {
    } else {
        let j = choose|j: usize| among.contains(j) && j < snaps.len() && defines(snaps[j as int], key);
        lemma_some_winner(snaps, before.ranks(snaps), among, key, j);
        let w = choose|w: usize| is_winner(snaps, before.ranks(snaps), among, key, w);
        let variable = first_variable(snaps[w as int], key);
        let outcome = resolve_outcome(variable, snaps, before.interpolation(), 0, Seq::empty());
        lemma_position_of_range(variable_keys(snaps[w as int].variables), key);
        assert(variable.key == key) by {
            let p = position_of(variable_keys(snaps[w as int].variables), key);
            assert(variable_keys(snaps[w as int].variables)[p] == key);
        }
    }
}

/// Where a place defines the key, some place wins it.
pub proof fn lemma_some_winner(
    snaps: Seq<SourceSnapshotView>,
    ranks: Seq<int>,
    among: Set<usize>,
    key: Seq<char>,
    j: usize,
)
    requires
        among.contains(j),
        j < snaps.len(),
        defines(snaps[j as int], key),
    ensures
        exists|w: usize| is_winner(snaps, ranks, among, key, w),
{
    lemma_best_from(snaps, ranks, among, key, j, 0);
}

/// Among the places from `from` on, with `best` the best place before, some
/// place wins the key.
proof fn lemma_best_from(
    snaps: Seq<SourceSnapshotView>,
    ranks: Seq<int>,
    among: Set<usize>,
    key: Seq<char>,
    best: usize,
    from: int,
)
    requires
        among.contains(best),
        best < snaps.len(),
        defines(snaps[best as int], key),
        0 <= from <= snaps.len(),
        forall|j: usize|
            among.contains(j) && j < from && j != best && defines(#[trigger] snaps[j as int], key)
                ==> ranks[j as int] < ranks[best as int] || (ranks[j as int] == ranks[best as int]
                && j < best),
    ensures
        exists|w: usize| is_winner(snaps, ranks, among, key, w),
    decreases snaps.len() - from,
{
    if from == snaps.len() {
        assert(is_winner(snaps, ranks, among, key, best));
    } else {
        let next = from + 1;
        if from <= usize::MAX && among.contains(from as usize) && from != best && defines(
            snaps[from],
            key,
        ) && !(ranks[from] < ranks[best as int] || (ranks[from] == ranks[best as int] && from
            < best)) {
            let here = from as usize;
            assert forall|j: usize|
                among.contains(j) && j < next && j != here && defines(
                    #[trigger] snaps[j as int],
                    key,
                ) implies ranks[j as int] < ranks[here as int] || (ranks[j as int]
                == ranks[here as int] && j < here) by {
                if j != best {
                    assert(ranks[j as int] < ranks[best as int] || (ranks[j as int]
                        == ranks[best as int] && j < best));
                }
            }
            lemma_best_from(snaps, ranks, among, key, here, next);
        } else {
            lemma_best_from(snaps, ranks, among, key, best, next);
        }
    }
}

/// Whether `key` lies on a circle of references: a walk leads from it
/// back to it.
pub open spec fn on_cycle(g: Seq<EdgeView>, key: Seq<char>) -> bool {
    exists|w: Seq<Seq<char>>|
        #[trigger] crate::resolution::graph::is_walk(g, w) && w.len() >= 2 && w[0] == key
            && w.last() == key
}

/// Every reference among the variables of the snapshots starts at the key
/// of one of the variables.
pub proof fn lemma_edge_starts_at_key(snaps: Seq<SourceSnapshotView>, e: int)
    requires
        0 <= e < snapshots_edges(snaps).len(),
    ensures
        all_keys(snaps).contains(snapshots_edges(snaps)[e].0),
    decreases snaps.len(),
{
    let head = snapshots_edges(snaps.drop_last());
    let tail = variables_edges(snaps.last().variables);
    let keys_head = all_keys(snaps.drop_last());
    let keys_tail = variable_keys(snaps.last().variables);
    if e < head.len() {
        lemma_edge_starts_at_key(snaps.drop_last(), e);
        let k = snapshots_edges(snaps)[e].0;
        assert(snapshots_edges(snaps)[e] == head[e]);
        let w = choose|w: int| 0 <= w < keys_head.len() && keys_head[w] == k;
        assert(all_keys(snaps)[w] == k);
    } else {
        lemma_variable_edge_starts_at_key(snaps.last().variables, e - head.len());
        let k = tail[e - head.len()].0;
        assert(snapshots_edges(snaps)[e] == tail[e - head.len()]);
        let w = choose|w: int| 0 <= w < keys_tail.len() && keys_tail[w] == k;
        assert(all_keys(snaps)[keys_head.len() + w] == k);
    }
}

/// Every reference among the variables of a list starts at the key of one
/// of them.
pub proof fn lemma_variable_edge_starts_at_key(vars: Seq<ParsedVariableView>, e: int)
    requires
        0 <= e < variables_edges(vars).len(),
    ensures
        variable_keys(vars).contains(variables_edges(vars)[e].0),
    decreases vars.len(),
{
    let head = variables_edges(vars.drop_last());
    let tail = variable_edges(vars.last());
    if e < head.len() {
        lemma_variable_edge_starts_at_key(vars.drop_last(), e);
        let k = variables_edges(vars)[e].0;
        assert(variables_edges(vars)[e] == head[e]);
        let keys = variable_keys(vars.drop_last());
        let w = choose|w: int| 0 <= w < keys.len() && keys[w] == k;
        assert(variable_keys(vars)[w] == k);
    } else {
        assert(variables_edges(vars)[e] == tail[e - head.len()]);
        assert(tail[e - head.len()].0 == vars.last().key);
        assert(variable_keys(vars)[vars.len() - 1] == vars.last().key);
    }
}

/// A circle of references among the variables of the snapshots is found by
/// the check: where references are checked and the snapshots are not those
/// that were checked last, a key on a circle makes the check find one.
pub proof fn lemma_cycle_is_found(
    before: ResolutionEngine,
    snaps: Seq<SourceSnapshotView>,
    key: Seq<char>,
)
    requires
        before.resolution().type_check,
        version_sum(snaps) != before.graph_version(),
        on_cycle(snapshots_edges(snaps), key),
    ensures
        cycle_found(before, snaps),
{
    let g = snapshots_edges(snaps);
    let w = choose|w: Seq<Seq<char>>|
        #[trigger] crate::resolution::graph::is_walk(g, w) && w.len() >= 2 && w[0] == key
            && w.last() == key;
    assert(crate::resolution::graph::revisits(w)) by {
        assert(w[0] == w.last());
    }
    assert(reaches_cycle(g, key));
    assert(crate::resolution::graph::has_edge(g, w[0], w[1]));
    let e = choose|e: int| 0 <= e < g.len() && g[e] == (w[0], w[1]);
    lemma_edge_starts_at_key(snaps, e);
    let keys = all_keys(snaps);
    let i = choose|i: int| 0 <= i < keys.len() && keys[i] == key;
    assert(reaches_cycle(g, keys[i]));
}

/// Where references are checked, the snapshots hold a circle of references
/// and they are not those that were checked last, resolving from them fails
/// with a circular dependency, whatever key is asked for.
pub proof fn lemma_cycle_fails_resolution(
    before: ResolutionEngine,
    after: ResolutionEngine,
    key: Seq<char>,
    context: WorkspaceContextView,
    snaps: Seq<SourceSnapshotView>,
    among: Set<usize>,
    now: u128,
    r: Result<Option<Arc<ResolvedVariable>>, AbundantisError>,
    on_circle: Seq<char>,
)
    requires
        is_resolution(before, after, key, context, snaps, among, now, r),
        before.resolution().type_check,
        version_sum(snaps) != before.graph_version(),
        on_cycle(snapshots_edges(snaps), on_circle),
    ensures
        r is Err,
        r->Err_0 is CircularDependency,
{
    lemma_cycle_is_found(before, snaps, on_circle);
}

/// With interpolation, a variable that is resolved at the greatest depth
/// or beyond fails with the depth it was resolved at.
pub proof fn lemma_depth_bound(
    variable: ParsedVariableView,
    snaps: Seq<SourceSnapshotView>,
    config: InterpolationConfig,
    depth: u32,
    visited: Seq<Seq<char>>,
)
    requires
        config.enabled,
        depth >= config.max_depth,
    ensures
        resolve_outcome(variable, snaps, config, depth, visited) == (Outcome::TooDeep {
            key: variable.key,
            depth,
        }),
{
}

/// A resolution that was cached at `cached_at` is found by every lookup
/// while it is alive, the cache stays as it is, and so the next lookup finds
/// it again.
pub proof fn lemma_cached_resolution_is_found(
    before: ResolutionCache,
    after: ResolutionCache,
    key: KeyView,
    value: ResolvedVariableView,
    cached_at: u128,
    now: u128,
    later: u128,
)
    requires
        before.enabled(),
        cache_gained(before, after, key, (value, cached_at)),
        crate::resolution::cache::is_fresh(cached_at, now, after.ttl()),
        crate::resolution::cache::is_fresh(cached_at, later, after.ttl()),
    ensures
        lookup(after.hot(), after.warm(), after.ttl(), key, now).found == Some(value),
        lookup(after.hot(), after.warm(), after.ttl(), key, now).hot == after.hot(),
        lookup(after.hot(), after.warm(), after.ttl(), key, now).warm == after.warm(),
        lookup(
            lookup(after.hot(), after.warm(), after.ttl(), key, now).hot,
            lookup(after.hot(), after.warm(), after.ttl(), key, now).warm,
            after.ttl(),
            key,
            later,
        ).found == Some(value),
{
}

/// An empty precedence list lists nothing: whatever the sources yield,
/// the listing is empty, unless a source fails or the references run in a
/// circle.
pub proof fn lemma_empty_precedence_lists_nothing(
    before: ResolutionEngine,
    after: ResolutionEngine,
    ids: Seq<Seq<char>>,
    filter: Option<Seq<Seq<char>>>,
    r: Result<Vec<Arc<ResolvedVariable>>, AbundantisError>,
)
    requires
        is_loaded_listing(before, after, ids, filter, r),
        before.resolution().precedence@.len() == 0,
    ensures
        match r {
            Ok(list) => list@.len() == 0,
            Err(e) => e is Source || e is CircularDependency,
        },
{
    if !(r matches Err(AbundantisError::Source(_)) && after == before) {
        let snaps = choose|snaps: Seq<SourceSnapshotView>|
            #[trigger] is_listing_result(before, after, snaps, filter, r) && snapshot_ids(snaps)
                == ids;
        if cycle_found(before, snaps) {
            assert(r is Err);
        }
    }
}

/// An engine with an empty cache answers from what the sources yield
/// then: the answer is the resolution of the snapshots that are loaded for
/// it, or the failure of a source to load, never what was cached before the
/// cache was emptied.
pub proof fn lemma_empty_cache_answers_anew(
    before: ResolutionEngine,
    after: ResolutionEngine,
    key: Seq<char>,
    context: WorkspaceContextView,
    now: u128,
    r: Result<Option<Arc<ResolvedVariable>>, AbundantisError>,
    ids: Seq<Seq<char>>,
    filter: Option<Option<Seq<Seq<char>>>>,
)
    requires
        before.cache_state().hot() == Seq::<HotEntry>::empty(),
        before.cache_state().warm() == crate::resolution::cache::empty_warm(),
        is_answer(before, after, key, context, now, r, ids, filter),
    ensures
        (r is Err && r->Err_0 is Source && ids.len() > 0) || exists|
            mid: ResolutionEngine,
            snaps: Seq<SourceSnapshotView>,
        | #[trigger] is_loaded(before, mid, after, key, context, now, r, snaps, ids, filter),
{
    let cache = before.cache_state();
    let found = lookup(cache.hot(), cache.warm(), cache.ttl(), (key, context_hash(context)), now);
    assert(found.found is None);
}

/// Asking twice: where a question was answered at `first` by resolving,
/// with a variable, the same question asked at `second`, while what was
/// cached then is alive, is answered with the same variable, whatever the
/// sources would yield then.
pub proof fn lemma_answered_again(
    start: ResolutionEngine,
    between: ResolutionEngine,
    end: ResolutionEngine,
    key: Seq<char>,
    context: WorkspaceContextView,
    first: u128,
    second: u128,
    first_answer: Result<Option<Arc<ResolvedVariable>>, AbundantisError>,
    second_answer: Result<Option<Arc<ResolvedVariable>>, AbundantisError>,
    first_ids: Seq<Seq<char>>,
    second_ids: Seq<Seq<char>>,
    first_filter: Option<Option<Seq<Seq<char>>>>,
    second_filter: Option<Option<Seq<Seq<char>>>>,
)
    requires
        start.cache_state().enabled(),
        lookup(
            start.cache_state().hot(),
            start.cache_state().warm(),
            start.cache_state().ttl(),
            (key, context_hash(context)),
            first,
        ).found is None,
        is_answer(start, between, key, context, first, first_answer, first_ids, first_filter),
        first_answer matches Ok(Some(_)),
        crate::resolution::cache::is_fresh(first, second, start.cache_state().ttl()),
        is_answer(between, end, key, context, second, second_answer, second_ids, second_filter),
    ensures
        second_answer matches Ok(Some(v)) && (*v)@ == (*first_answer->Ok_0->0)@,
{
    let (mid, snaps) = choose|mid: ResolutionEngine, snaps: Seq<SourceSnapshotView>| #[trigger]
        is_loaded(
            start,
            mid,
            between,
            key,
            context,
            first,
            first_answer,
            snaps,
            first_ids,
            first_filter,
        );
    let among = places_for(snaps, first_filter, start.resolution().precedence@);
    assert(is_choice(mid, between, key, context, snaps, among, first, first_answer));
    assert(!nobody_defines(snaps, among, key));
    let j = choose|j: usize| among.contains(j) && j < snaps.len() && defines(snaps[j as int], key);
    lemma_some_winner(snaps, mid.ranks(snaps), among, key, j);
    let w = choose|w: usize| is_winner(snaps, mid.ranks(snaps), among, key, w);
    let outcome = resolve_outcome(
        first_variable(snaps[w as int], key),
        snaps,
        mid.interpolation(),
        0,
        Seq::empty(),
    );
    let value = (*first_answer->Ok_0->0)@;
    assert(cache_gained(
        mid.cache_state(),
        between.cache_state(),
        (key, context_hash(context)),
        (value, first),
    ));
    lemma_cached_resolution_is_found(
        mid.cache_state(),
        between.cache_state(),
        (key, context_hash(context)),
        value,
        first,
        second,
        second,
    );
}

/// Precedence at the answer: where a question is answered from the
/// snapshots that the sources yielded, without interpolation and without a
/// circle found, the answer is the variable of the place that wins the key
/// among them, which is the one iterated last in the file order, with its
/// raw value, its value and its origin.
pub proof fn lemma_loaded_answer_is_the_winner(
    before: ResolutionEngine,
    mid: ResolutionEngine,
    after: ResolutionEngine,
    key: Seq<char>,
    context: WorkspaceContextView,
    now: u128,
    r: Result<Option<Arc<ResolvedVariable>>, AbundantisError>,
    snaps: Seq<SourceSnapshotView>,
    ids: Seq<Seq<char>>,
    filter: Option<Option<Seq<Seq<char>>>>,
    w: usize,
)
    requires
        is_loaded(before, mid, after, key, context, now, r, snaps, ids, filter),
        !before.interpolation().enabled,
        !cycle_found(mid, snaps),
        is_winner(
            snaps,
            before.ranks(snaps),
            places_for(snaps, filter, before.resolution().precedence@),
            key,
            w,
        ),
    ensures
        r matches Ok(Some(v)) && (*v)@.key == key && (*v)@.raw_value == first_variable(
            snaps[w as int],
            key,
        ).raw_value && (*v)@.resolved_value == first_variable(snaps[w as int], key).raw_value
            && (*v)@.source == first_variable(snaps[w as int], key).source,
{
    let among = places_for(snaps, filter, before.resolution().precedence@);
    assert(mid.ranks(snaps) == before.ranks(snaps));
    assert(is_choice(mid, after, key, context, snaps, among, now, r));
    let variable = first_variable(snaps[w as int], key);
    let outcome = resolve_outcome(variable, snaps, mid.interpolation(), 0, Seq::empty());
    lemma_position_of_range(variable_keys(snaps[w as int].variables), key);
    let p = position_of(variable_keys(snaps[w as int].variables), key);
    assert(variable_keys(snaps[w as int].variables)[p] == key);
}

} // verus!
