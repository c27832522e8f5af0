//! Interpolation: the references in a value are resolved, to a bounded
//! depth, before the value is expanded.

use vstd::prelude::*;
use std::sync::Arc;
use crate::config::InterpolationConfig;
use crate::error::AbundantisError;
use crate::resolution::cache::{ResolvedVariable, ResolvedVariableView};
use crate::resolution::order::snapshot_views;
use crate::source::traits::{SourceSnapshot, SourceSnapshotView};
use crate::source::variable::{variable_views, ParsedVariable, ParsedVariableView};
use crate::text::{
    clone_opt_string, contains_text, join, joined, lemma_position_of_first,
    lemma_position_of_range, opt_text, position_of, str_eq, texts,
};

verus! {

/// The names of the variables that a value refers to, as `germi` finds
/// them.
pub uninterp spec fn references_of(value: Seq<char>) -> Seq<Seq<char>>;

/// What `germi` makes of a value, given the variables it may substitute and
/// the depth to which it may follow them; `None` where it fails.
pub uninterp spec fn expansion_of(
    value: Seq<char>,
    variables: Map<Seq<char>, Seq<char>>,
    max_depth: nat,
) -> Option<Seq<char>>;

/// The variables that a list of bindings gives; a later binding of a name
/// replaces an earlier one.
pub open spec fn bindings(pairs: Seq<(String, String)>) -> Map<Seq<char>, Seq<char>>
    decreases pairs.len(),
{
    if pairs.len() == 0 {
        Map::empty()
    } else {
        bindings(pairs.drop_last()).insert(pairs.last().0@, pairs.last().1@)
    }
}

/// Wraps `germi::find_variable_references`.
#[verifier::external_body]
pub(crate) fn find_references(value: &str) -> (r: Vec<String>)
    ensures
        texts(r@) == references_of(value@),
{
    germi::find_variable_references(value)
}

/// Wraps `Germi::interpolate`, on an engine made by `Germi::with_config`
/// with the given depth and filled by `Germi::add_variable` with the given
/// bindings, in order.
#[verifier::external_body]
pub(crate) fn expand(value: &str, pairs: &Vec<(String, String)>, max_depth: usize) -> (r: Option<
    String,
>)
    ensures
        opt_text(r) == expansion_of(value@, bindings(pairs@), max_depth as nat),
{
    let mut engine = germi::Germi::with_config(germi::Config { max_depth, ..Default::default() });
    for pair in pairs.iter() {
        engine.add_variable(pair.0.as_str(), pair.1.as_str());
    }
    engine.interpolate(value).ok().map(|text| text.into_owned())
}

/// The keys of a list of variables, in order.
pub open spec fn variable_keys(vars: Seq<ParsedVariableView>) -> Seq<Seq<char>> {
    Seq::new(vars.len(), |i: int| vars[i].key)
}

/// Whether a snapshot holds a variable with the key.
pub open spec fn defines(s: SourceSnapshotView, key: Seq<char>) -> bool {
    variable_keys(s.variables).contains(key)
}

/// The first variable of a snapshot with the key; meaningful where the
/// snapshot defines the key.
pub open spec fn first_variable(s: SourceSnapshotView, key: Seq<char>) -> ParsedVariableView {
    s.variables[position_of(variable_keys(s.variables), key)]
}

/// Whether `i` is the first snapshot that defines the key.
pub open spec fn is_first_defining(snaps: Seq<SourceSnapshotView>, key: Seq<char>, i: int) -> bool {
    &&& 0 <= i < snaps.len()
    &&& defines(snaps[i], key)
    &&& forall|j: int| 0 <= j < i ==> !defines(#[trigger] snaps[j], key)
}

/// Whether some snapshot defines the key.
pub open spec fn defined_somewhere(snaps: Seq<SourceSnapshotView>, key: Seq<char>) -> bool {
    exists|i: int| 0 <= i < snaps.len() && defines(#[trigger] snaps[i], key)
}

/// The first snapshot that defines the key; meaningful where one does.
pub open spec fn first_defining(snaps: Seq<SourceSnapshotView>, key: Seq<char>) -> int {
    choose|i: int| is_first_defining(snaps, key, i)
}

/// The value of `value` after interpolation at `depth`: each name that
/// `value` refers to, that is not being resolved already and that some
/// snapshot defines, is bound to the interpolated value it has in the first
/// such snapshot; then `value` is expanded. Where the expansion fails, and
/// at the depth bound, the value stays as it is.
pub open spec fn lazy_value(
    value: Seq<char>,
    snaps: Seq<SourceSnapshotView>,
    depth: nat,
    max_depth: nat,
    visited: Seq<Seq<char>>,
) -> Seq<char>
    decreases max_depth - depth, 1nat, 0nat,
{
    if depth >= max_depth {
        value
    } else {
        match expansion_of(
            value,
            lazy_bindings(references_of(value), snaps, depth, max_depth, visited),
            (max_depth - depth) as nat,
        ) {
            Some(text) => text,
            None => value,
        }
    }
}

/// The variables that the names `names` are bound to at `depth`.
pub open spec fn lazy_bindings(
    names: Seq<Seq<char>>,
    snaps: Seq<SourceSnapshotView>,
    depth: nat,
    max_depth: nat,
    visited: Seq<Seq<char>>,
) -> Map<Seq<char>, Seq<char>>
    decreases max_depth - depth, 0nat, names.len(),
{
    if names.len() == 0 || depth >= max_depth {
        Map::empty()
    } else {
        let rest = lazy_bindings(names.drop_last(), snaps, depth, max_depth, visited);
        let name = names.last();
        if visited.contains(name) || !defined_somewhere(snaps, name) {
            rest
        } else {
            let v = first_variable(snaps[first_defining(snaps, name)], name);
            rest.insert(v.key, lazy_value(v.raw_value, snaps, depth + 1, max_depth, visited))
        }
    }
}

/// The place of the first variable with the key in a list.
pub fn find_variable(variables: &Vec<ParsedVariable>, key: &str) -> (r: Option<usize>)
    ensures
        match r {
            Some(i) => i < variables@.len() && position_of(
                variable_keys(variable_views(variables@)),
                key@,
            ) == i,
            None => !variable_keys(variable_views(variables@)).contains(key@),
        },
{
    let ghost keys = variable_keys(variable_views(variables@));
    let mut i: usize = 0;
    while i < variables.len()
        invariant
            i <= variables.len(),
            keys == variable_keys(variable_views(variables@)),
            forall|j: int| 0 <= j < i ==> keys[j] != key@,
        decreases variables.len() - i,
    {
        if str_eq(variables[i].key.as_str(), key) {
            proof {
                assert(keys[i as int] == key@);
                lemma_position_of_first(keys, key@, i as int);
            }
            return Some(i);
        }
        i += 1;
    }
    None
}

/// The first snapshot that defines the key, and the place of the key's
/// first variable in it.
pub fn find_defining(snapshots: &Vec<SourceSnapshot>, key: &str) -> (r: Option<(usize, usize)>)
    ensures
        match r {
            Some((s, v)) => {
                &&& s < snapshots@.len()
                &&& v < snapshots@[s as int].variables@.len()
                &&& defined_somewhere(snapshot_views(snapshots@), key@)
                &&& first_defining(snapshot_views(snapshots@), key@) == s
                &&& first_variable(snapshot_views(snapshots@)[s as int], key@)
                    == snapshots@[s as int].variables@[v as int]@
            },
            None => !defined_somewhere(snapshot_views(snapshots@), key@),
        },
{
    let ghost snaps = snapshot_views(snapshots@);
    let mut i: usize = 0;
    while i < snapshots.len()
        invariant
            i <= snapshots.len(),
            snaps == snapshot_views(snapshots@),
            forall|j: int| 0 <= j < i ==> !defines(#[trigger] snaps[j], key@),
        decreases snapshots.len() - i,
    {
        match find_variable(&snapshots[i].variables, key) {
            Some(v) => {
                proof {
                    let keys = variable_keys(variable_views(snapshots@[i as int].variables@));
                    lemma_position_of_range(keys, key@);
                    assert(snaps[i as int].variables == variable_views(
                        snapshots@[i as int].variables@,
                    ));
                    assert(defines(snaps[i as int], key@));
                    assert(is_first_defining(snaps, key@, i as int));
                    let c = choose|c: int| is_first_defining(snaps, key@, c);
                    if c < i {
                        assert(!defines(snaps[c], key@));
                    }
                    if i < c {
                        assert(!defines(snaps[i as int], key@));
                    }
                }
                return Some((i, v));
            },
            None => {
                assert(snaps[i as int].variables == variable_views(
                    snapshots@[i as int].variables@,
                ));
            },
        }
        i += 1;
    }
    None
}

/// Interpolates `value` at `depth`. Where interpolation is switched off the
/// value is returned as it is.
pub fn interpolate_value_lazy(
    config: &InterpolationConfig,
    value: &str,
    all_snapshots: &Vec<SourceSnapshot>,
    depth: u32,
    visited: &Vec<String>,
) -> (r: String)
    ensures
        r@ == if config.enabled {
            lazy_value(
                value@,
                snapshot_views(all_snapshots@),
                depth as nat,
                config.max_depth as nat,
                texts(visited@),
            )
        } else {
            value@
        },
    decreases config.max_depth - depth,
{
    let max_depth = config.max_depth;
    if depth >= max_depth || !config.enabled {
        return value.to_owned();
    }
    let ghost snaps = snapshot_views(all_snapshots@);
    let ghost seen = texts(visited@);
    let references = find_references(value);
    let ghost names = texts(references@);
    let mut pairs: Vec<(String, String)> = Vec::new();
    let mut i: usize = 0;
    proof {
        assert(names.take(0) =~= Seq::<Seq<char>>::empty());
    }
    while i < references.len()
        invariant
            i <= references.len(),
            depth < max_depth,
            max_depth == config.max_depth,
            config.enabled,
            snaps == snapshot_views(all_snapshots@),
            seen == texts(visited@),
            names == texts(references@),
            bindings(pairs@) == lazy_bindings(
                names.take(i as int),
                snaps,
                depth as nat,
                max_depth as nat,
                seen,
            ),
        decreases references.len() - i,
    {
        let name = references[i].as_str();
        proof {
            assert(names.take(i + 1).drop_last() =~= names.take(i as int));
            assert(names.take(i + 1).last() == name@);
        }
        if !contains_text(visited, name) {
            match find_defining(all_snapshots, name) {
                Some((s, v)) => {
                    let variable = &all_snapshots[s].variables[v];
                    let resolved = interpolate_value_lazy(
                        config,
                        variable.raw_value.as_str(),
                        all_snapshots,
                        depth + 1,
                        visited,
                    );
                    let ghost before = pairs@;
                    pairs.push((variable.key.clone(), resolved));
                    proof {
                        assert(pairs@.drop_last() =~= before);
                    }
                },
                None => {},
            }
        }
        i += 1;
    }
    proof {
        assert(names.take(references.len() as int) =~= names);
    }
    match expand(value, &pairs, (max_depth - depth) as usize) {
        Some(text) => text,
        None => value.to_owned(),
    }
}

/// How the resolution of one variable ends.
pub enum Outcome {
    Resolved(ResolvedVariableView),
    TooDeep { key: Seq<char>, depth: u32 },
    Circular { chain: Seq<char> },
}

/// How the resolution of `variable` at `depth` ends, while the keys
/// `visited` are being resolved. Without interpolation the raw value is the
/// resolved one. At the depth bound the resolution fails; so it does for a
/// key that is being resolved already, with the chain of the keys on the
/// way. Else the raw value is interpolated one level deeper.
pub open spec fn resolve_outcome(
    variable: ParsedVariableView,
    snaps: Seq<SourceSnapshotView>,
    config: InterpolationConfig,
    depth: u32,
    visited: Seq<Seq<char>>,
) -> Outcome {
    if !config.enabled {
        Outcome::Resolved(
            ResolvedVariableView {
                key: variable.key,
                raw_value: variable.raw_value,
                resolved_value: variable.raw_value,
                source: variable.source,
                description: variable.description,
                has_warnings: false,
                interpolation_depth: 0,
            },
        )
    } else if depth >= config.max_depth {
        Outcome::TooDeep { key: variable.key, depth }
    } else if visited.contains(variable.key) {
        Outcome::Circular { chain: joined(visited, " -> "@) }
    } else {
        Outcome::Resolved(
            ResolvedVariableView {
                key: variable.key,
                raw_value: variable.raw_value,
                resolved_value: lazy_value(
                    variable.raw_value,
                    snaps,
                    (depth + 1) as nat,
                    config.max_depth as nat,
                    visited.push(variable.key),
                ),
                source: variable.source,
                description: variable.description,
                has_warnings: false,
                interpolation_depth: depth,
            },
        )
    }
}

/// Whether a result is the given outcome.
pub open spec fn is_outcome(r: Result<Arc<ResolvedVariable>, AbundantisError>, o: Outcome) -> bool {
    match o {
        Outcome::Resolved(v) => r matches Ok(resolved) && (*resolved)@ == v,
        Outcome::TooDeep { key, depth } => r matches Err(
            AbundantisError::MaxDepthExceeded { key: k, depth: d },
        ) && k@ == key && d == depth,
        Outcome::Circular { chain } => r matches Err(
            AbundantisError::CircularDependency { chain: c },
        ) && c@ == chain,
    }
}

/// Resolves one variable at `depth`. `visited` holds the keys that are
/// being resolved; it is the same afterwards.
pub fn resolve_variable(
    config: &InterpolationConfig,
    variable: &ParsedVariable,
    all_snapshots: &Vec<SourceSnapshot>,
    depth: u32,
    visited: &mut Vec<String>,
) -> (r: Result<Arc<ResolvedVariable>, AbundantisError>)
    ensures
        texts(final(visited)@) == texts(old(visited)@),
        is_outcome(
            r,
            resolve_outcome(
                variable@,
                snapshot_views(all_snapshots@),
                *config,
                depth,
                texts(old(visited)@),
            ),
        ),
{
    if !config.enabled {
        return Ok(
            Arc::new(
                ResolvedVariable {
                    key: variable.key.clone(),
                    raw_value: variable.raw_value.clone(),
                    resolved_value: variable.raw_value.clone(),
                    source: variable.source.clone(),
                    description: clone_opt_string(&variable.description),
                    has_warnings: false,
                    interpolation_depth: 0,
                },
            ),
        );
    }
    if depth >= config.max_depth {
        return Err(AbundantisError::MaxDepthExceeded { key: variable.key.clone(), depth });
    }
    if contains_text(visited, variable.key.as_str()) {
        return Err(AbundantisError::CircularDependency { chain: join(visited, " -> ") });
    }
    let ghost before = texts(visited@);
    visited.push(variable.key.clone());
    proof {
        assert(texts(visited@) =~= before.push(variable.key@));
    }
    let resolved_value = interpolate_value_lazy(
        config,
        variable.raw_value.as_str(),
        all_snapshots,
        depth + 1,
        visited,
    );
    let _ = visited.pop();
    proof {
        assert(texts(visited@) =~= before);
    }
    Ok(
        Arc::new(
            ResolvedVariable {
                key: variable.key.clone(),
                raw_value: variable.raw_value.clone(),
                resolved_value,
                source: variable.source.clone(),
                description: clone_opt_string(&variable.description),
                has_warnings: false,
                interpolation_depth: depth,
            },
        ),
    )
}

} // verus!
