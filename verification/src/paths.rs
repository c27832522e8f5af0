//! Paths, held as texts, and the operations of `std::path` on them.

use vstd::prelude::*;

verus! {

/// What `Path::join` gives for a base and a path.
pub uninterp spec fn path_join(base: Seq<char>, path: Seq<char>) -> Seq<char>;

/// Whether `Path::starts_with` holds: the components of `base` are the first
/// components of `path`.
pub uninterp spec fn path_starts_with(path: Seq<char>, base: Seq<char>) -> bool;

/// The number of components that `Path::components` yields.
pub uninterp spec fn path_component_count(path: Seq<char>) -> nat;

/// What `Path::file_name` gives, as text; `None` where the path ends in `..`
/// or is the root.
pub uninterp spec fn path_file_name(path: Seq<char>) -> Option<Seq<char>>;

/// What `Path::strip_prefix` gives, as text; `None` where `base` is no
/// prefix of `path`.
pub uninterp spec fn path_strip_prefix(path: Seq<char>, base: Seq<char>) -> Option<Seq<char>>;

/// Wraps `Path::join`.
#[verifier::external_body]
pub(crate) fn join_path(base: &str, path: &str) -> (r: String)
    ensures
        r@ == path_join(base@, path@),
{
    std::path::Path::new(base).join(path).to_string_lossy().into_owned()
}

/// Wraps `Path::starts_with`.
#[verifier::external_body]
pub(crate) fn starts_with_path(path: &str, base: &str) -> (r: bool)
    ensures
        r == path_starts_with(path@, base@),
{
    std::path::Path::new(path).starts_with(base)
}

/// Wraps `Path::components`, counting what it yields.
#[verifier::external_body]
pub(crate) fn component_count(path: &str) -> (r: usize)
    ensures
        r == path_component_count(path@),
{
    std::path::Path::new(path).components().count()
}

/// Wraps `Path::file_name`.
#[verifier::external_body]
pub(crate) fn file_name_of(path: &str) -> (r: Option<String>)
    ensures
        crate::text::opt_text(r) == path_file_name(path@),
{
    std::path::Path::new(path).file_name().map(|n| n.to_string_lossy().into_owned())
}

/// Wraps `Path::strip_prefix`.
#[verifier::external_body]
pub(crate) fn strip_path_prefix(path: &str, base: &str) -> (r: Option<String>)
    ensures
        crate::text::opt_text(r) == path_strip_prefix(path@, base@),
{
    std::path::Path::new(path).strip_prefix(base).ok().map(|p| p.to_string_lossy().into_owned())
}

/// What `Path::parent` gives, as text; `None` for a root and for the empty
/// path.
pub uninterp spec fn path_parent(path: Seq<char>) -> Option<Seq<char>>;

/// Wraps `Path::parent`.
#[verifier::external_body]
pub(crate) fn parent_of(path: &str) -> (r: Option<String>)
    ensures
        crate::text::opt_text(r) == path_parent(path@),
{
    std::path::Path::new(path).parent().map(|p| p.to_string_lossy().into_owned())
}

/// The path without the base that begins it; the path itself where the base
/// does not begin it.
pub open spec fn relative_to(base: Seq<char>, path: Seq<char>) -> Seq<char> {
    match path_strip_prefix(path, base) {
        Some(rest) => rest,
        None => path,
    }
}

/// The path without the base that begins it.
pub fn relative_path(base: &str, path: &str) -> (r: String)
    ensures
        r@ == relative_to(base@, path@),
{
    match strip_path_prefix(path, base) {
        Some(rest) => rest,
        None => path.to_owned(),
    }
}

/// A path as `Debug` shows it: in quotes, with what needs escaping escaped.
pub uninterp spec fn path_debug(path: Seq<char>) -> Seq<char>;

/// Wraps the `Debug` form of `Path`.
#[verifier::external_body]
pub(crate) fn debug_path(path: &str) -> (r: String)
    ensures
        r@ == path_debug(path@),
{
    format!("{:?}", std::path::Path::new(path))
}

/// Whether `a` comes before `b` in the order of `Path`.
pub uninterp spec fn path_precedes(a: Seq<char>, b: Seq<char>) -> bool;

/// Wraps `<` on `Path`. The order of paths is a strict one: of two paths at
/// most one comes before the other.
#[verifier::external_body]
pub(crate) fn path_before(a: &str, b: &str) -> (r: bool)
    ensures
        r == path_precedes(a@, b@),
        r ==> !path_precedes(b@, a@),
{
    std::path::Path::new(a) < std::path::Path::new(b)
}

/// Whether no path of `sorted` stands directly behind one that it comes
/// before.
pub open spec fn in_path_order(sorted: Seq<Seq<char>>) -> bool {
    forall|i: int|
        0 <= i < sorted.len() - 1 ==> !path_precedes(#[trigger] sorted[i + 1], sorted[i])
}

/// The place at which a path goes into sorted paths: before every path at
/// the end that it comes before.
pub open spec fn path_place(sorted: Seq<Seq<char>>, item: Seq<char>) -> int
    decreases sorted.len(),
{
    if sorted.len() == 0 {
        0
    } else if path_precedes(item, sorted.last()) {
        path_place(sorted.drop_last(), item)
    } else {
        sorted.len() as int
    }
}

/// The paths in the order of `Path`; paths of which neither comes before
/// the other in the order in which they stand in `all`.
pub open spec fn sorted_paths(all: Seq<Seq<char>>) -> Seq<Seq<char>>
    decreases all.len(),
{
    if all.len() == 0 {
        Seq::empty()
    } else {
        sorted_paths(all.drop_last()).insert(
            path_place(sorted_paths(all.drop_last()), all.last()),
            all.last(),
        )
    }
}

/// Puts paths in the order of `Path`. Paths of which neither comes before
/// the other keep their order.
pub fn sort_paths(paths: Vec<String>) -> (r: Vec<String>)
    ensures
        crate::text::texts(r@) == sorted_paths(crate::text::texts(paths@)),
        crate::text::texts(r@).to_multiset() == crate::text::texts(paths@).to_multiset(),
        in_path_order(crate::text::texts(r@)),
{
    let ghost all = crate::text::texts(paths@);
    let mut sorted: Vec<String> = Vec::new();
    let mut i: usize = 0;
    proof {
        assert(all.take(0) =~= Seq::<Seq<char>>::empty());
        assert(crate::text::texts(sorted@) =~= all.take(0));
    }
    while i < paths.len()
        invariant
            i <= paths.len(),
            all == crate::text::texts(paths@),
            crate::text::texts(sorted@) == sorted_paths(all.take(i as int)),
            crate::text::texts(sorted@).to_multiset() == all.take(i as int).to_multiset(),
            in_path_order(crate::text::texts(sorted@)),
        decreases paths.len() - i,
    {
        let item = paths[i].clone();
        let ghost before = crate::text::texts(sorted@);
        let mut at: usize = sorted.len();
        proof {
            assert(before.take(at as int) =~= before);
        }
        while at > 0 && path_before(item.as_str(), sorted[at - 1].as_str())
            invariant
                at <= sorted.len(),
                before == crate::text::texts(sorted@),
                at < sorted.len() ==> path_precedes(item@, before[at as int]) && !path_precedes(
                    before[at as int],
                    item@,
                ),
                path_place(before, item@) == path_place(before.take(at as int), item@),
            decreases at,
        {
            proof {
                assert(before[at - 1] == sorted@[at - 1]@);
                assert(before.take(at as int).last() == before[at - 1]);
                assert(before.take(at as int).drop_last() =~= before.take(at - 1));
            }
            at -= 1;
        }
        proof {
            if at > 0 {
                assert(before[at - 1] == sorted@[at - 1]@);
                assert(before.take(at as int).last() == before[at - 1]);
            }
            assert(path_place(before, item@) == at);
            assert(all.take(i + 1).drop_last() =~= all.take(i as int));
            assert(all.take(i + 1).last() == item@);
        }
        sorted.insert(at, item);
        proof {
            let after = crate::text::texts(sorted@);
            assert(after =~= before.insert(at as int, item@));
            assert forall|k: int| 0 <= k < after.len() - 1 implies !path_precedes(
                #[trigger] after[k + 1],
                after[k],
            ) by {
                if k + 1 < at {
                    assert(after[k] == before[k] && after[k + 1] == before[k + 1]);
                } else if k + 1 == at {
                    assert(after[k] == before[k]);
                } else if k == at {
                    assert(after[k + 1] == before[k]);
                } else {
                    assert(after[k] == before[k - 1] && after[k + 1] == before[k]);
                    assert(!path_precedes(before[(k - 1) + 1], before[k - 1]));
                }
            }
            crate::text::lemma_insert_multiset(before, at as int, item@);
            assert(all.take(i + 1) =~= all.take(i as int).push(item@));
            broadcast use vstd::seq_lib::group_to_multiset_ensures;
        }
        i += 1;
    }
    proof {
        assert(all.take(paths.len() as int) =~= all);
    }
    sorted
}

} // verus!
