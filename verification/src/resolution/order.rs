//! Which snapshots take part in a resolution, and in what order.

use vstd::prelude::*;
use crate::config::SourcePrecedence;
use crate::paths::{file_name_of, path_file_name};
use crate::source::traits::{SourceId, SourceSnapshot, SourceSnapshotView};
use crate::text::{ends_with, starts_with, str_eq, strip_prefix, texts};

verus! {

/// The views of a list of snapshots, in order.
pub open spec fn snapshot_views(s: Seq<SourceSnapshot>) -> Seq<SourceSnapshotView> {
    Seq::new(s.len(), |i: int| s[i]@)
}

/// The class that the identity of a source puts it in; none for an identity
/// of no known form.
pub open spec fn classify(id: Seq<char>) -> Option<SourcePrecedence> {
    if "file:"@.is_prefix_of(id) {
        Some(SourcePrecedence::File)
    } else if id == "shell"@ || "shell:"@.is_prefix_of(id) {
        Some(SourcePrecedence::Shell)
    } else if "remote:"@.is_prefix_of(id) {
        Some(SourcePrecedence::Remote)
    } else {
        None
    }
}

/// Whether a source takes part under a precedence list: a source of a known
/// class where the list names the class, any other source always; none at
/// all under an empty list.
pub open spec fn participates(id: Seq<char>, precedence: Seq<SourcePrecedence>) -> bool {
    precedence.len() > 0 && match classify(id) {
        Some(class) => precedence.contains(class),
        None => true,
    }
}

/// Whether an identity is that of a file source that names a path.
pub open spec fn names_file(id: Seq<char>) -> bool {
    "file:"@.is_prefix_of(id) && id.len() > 5
}

/// Whether a source passes the filter of active files: with a filter, a file
/// source passes where the filter names it; any other source always passes.
pub open spec fn passes_filter(id: Seq<char>, filter: Option<Seq<Seq<char>>>) -> bool {
    match filter {
        Some(active) => !names_file(id) || active.contains(id),
        None => true,
    }
}

/// The place of a file among the configured file names: the first name that
/// is the file's name or ends its path.
pub open spec fn order_match(path: Seq<char>, order: Seq<Seq<char>>, i: int) -> bool {
    0 <= i < order.len() && (path_file_name(path) == Some(order[i]) || (path_file_name(path) is None
        && order[i].len() == 0) || order[i].is_suffix_of(path))
}

pub open spec fn is_first_order_match(path: Seq<char>, order: Seq<Seq<char>>, i: int) -> bool {
    order_match(path, order, i) && forall|j: int| 0 <= j < i ==> !order_match(path, order, j)
}

/// The rank of a source in the file order: 0 for a source that is no file,
/// `i + 1` for a file that matches the name at place `i` first, and one more
/// than the number of names for a file that matches none.
pub open spec fn order_key(id: Seq<char>, order: Seq<Seq<char>>) -> int {
    if !"file:"@.is_prefix_of(id) {
        0
    } else if exists|i: int| order_match(id.skip(5), order, i) {
        (choose|i: int| is_first_order_match(id.skip(5), order, i)) + 1
    } else {
        order.len() as int + 1
    }
}

/// The ranks of a list of snapshots, in order.
pub open spec fn order_keys(snaps: Seq<SourceSnapshotView>, order: Seq<Seq<char>>) -> Seq<int> {
    Seq::new(snaps.len(), |i: int| order_key(snaps[i].source_id, order))
}

/// Whether the places `out` stand in rising order of rank, places of one
/// rank in rising order.
pub open spec fn is_ordered(out: Seq<usize>, keys: Seq<int>) -> bool {
    &&& forall|a: int| 0 <= a < out.len() ==> 0 <= #[trigger] out[a] < keys.len()
    &&& forall|a: int, b: int|
        0 <= a < b < out.len() ==> keys[out[a] as int] < keys[out[b] as int] || (keys[out[a] as int]
            == keys[out[b] as int] && out[a] < out[b])
}

/// Whether the places `s` rise strictly and lie below `n`.
pub open spec fn is_rising(s: Seq<usize>, n: int) -> bool {
    &&& forall|a: int| 0 <= a < s.len() ==> 0 <= #[trigger] s[a] < n
    &&& forall|a: int, b: int| 0 <= a < b < s.len() ==> s[a] < s[b]
}

/// The class of an identity.
pub fn class_of(id: &str) -> (r: Option<SourcePrecedence>)
    ensures
        r == classify(id@),
{
    if starts_with(id, "file:") {
        Some(SourcePrecedence::File)
    } else if str_eq(id, "shell") || starts_with(id, "shell:") {
        Some(SourcePrecedence::Shell)
    } else if starts_with(id, "remote:") {
        Some(SourcePrecedence::Remote)
    } else {
        None
    }
}

/// Whether a precedence list names a class.
pub fn names_class(precedence: &Vec<SourcePrecedence>, class: SourcePrecedence) -> (r: bool)
    ensures
        r == precedence@.contains(class),
{
    let mut i: usize = 0;
    while i < precedence.len()
        invariant
            i <= precedence.len(),
            forall|j: int| 0 <= j < i ==> precedence@[j] != class,
        decreases precedence.len() - i,
    {
        if precedence[i] == class {
            return true;
        }
        i += 1;
    }
    false
}

/// Whether a source with the identity `id` takes part under `precedence`.
pub fn takes_part(id: &str, precedence: &Vec<SourcePrecedence>) -> (r: bool)
    ensures
        r == participates(id@, precedence@),
{
    if precedence.len() == 0 {
        return false;
    }
    match class_of(id) {
        Some(class) => names_class(precedence, class),
        None => true,
    }
}

/// The identities of a list, as texts.
pub open spec fn id_texts(ids: Seq<SourceId>) -> Seq<Seq<char>> {
    Seq::new(ids.len(), |i: int| ids[i]@)
}

/// The identities that a filter of active files names.
pub open spec fn filter_texts(filter: Option<&Vec<SourceId>>) -> Option<Seq<Seq<char>>> {
    match filter {
        Some(active) => Some(id_texts(active@)),
        None => None,
    }
}

/// Whether a source with the identity `id` passes the filter.
pub fn passes(id: &str, filter: Option<&Vec<SourceId>>) -> (r: bool)
    ensures
        r == passes_filter(
            id@,
            filter_texts(filter),
        ),
{
    match filter {
        None => true,
        Some(active) => {
            let is_file = starts_with(id, "file:") && id.unicode_len() > 5;
            if !is_file {
                return true;
            }
            assert(names_file(id@));
            let mut i: usize = 0;
            while i < active.len()
                invariant
                    i <= active.len(),
                    filter == Some(active),
                    names_file(id@),
                    forall|j: int| 0 <= j < i ==> id_texts(active@)[j] != id@,
                decreases active.len() - i,
            {
                if str_eq(active[i].as_str(), id) {
                    assert(id_texts(active@)[i as int] == id@);
                    return true;
                }
                i += 1;
            }
            false
        },
    }
}

/// The rank of a source in the file order.
pub fn get_file_order_index(source_id: &SourceId, file_order: &Vec<String>) -> (r: usize)
    requires
        file_order@.len() < usize::MAX,
    ensures
        r == order_key(source_id@, texts(file_order@)),
{
    let path = match strip_prefix(source_id.as_str(), "file:") {
        Some(path) => path,
        None => {
            return 0;
        },
    };
    proof {
        reveal_strlit("file:");
        assert(path@ == source_id@.skip(5));
    }
    let name = file_name_of(path.as_str());
    let ghost order = texts(file_order@);
    let mut i: usize = 0;
    while i < file_order.len()
        invariant
            i <= file_order.len(),
            file_order@.len() < usize::MAX,
            order == texts(file_order@),
            "file:"@.is_prefix_of(source_id@),
            path@ == source_id@.skip(5),
            crate::text::opt_text(name) == path_file_name(path@),
            forall|j: int| 0 <= j < i ==> !order_match(path@, order, j),
        decreases file_order.len() - i,
    {
        let pattern = file_order[i].as_str();
        let by_name = match &name {
            Some(n) => str_eq(n.as_str(), pattern),
            None => pattern.unicode_len() == 0,
        };
        if by_name || ends_with(path.as_str(), pattern) {
            proof {
                assert(order[i as int] == pattern@);
                assert(is_first_order_match(path@, order, i as int));
                let c = choose|c: int| is_first_order_match(path@, order, c);
                if c < i {
                    assert(!order_match(path@, order, c));
                }
                if i < c {
                    assert(!order_match(path@, order, i as int));
                }
            }
            return i + 1;
        }
        assert(!order_match(path@, order, i as int));
        i += 1;
    }
    assert(!exists|k: int| order_match(path@, order, k));
    file_order.len() + 1
}

/// The ranks of the snapshots, in order.
pub fn file_order_indices(snapshots: &Vec<SourceSnapshot>, file_order: &Vec<String>) -> (r: Vec<
    usize,
>)
    requires
        file_order@.len() < usize::MAX,
    ensures
        r@.len() == snapshots@.len(),
        forall|i: int|
            0 <= i < r@.len() ==> #[trigger] r@[i] == order_keys(
                snapshot_views(snapshots@),
                texts(file_order@),
            )[i],
{
    let mut keys: Vec<usize> = Vec::new();
    let mut i: usize = 0;
    while i < snapshots.len()
        invariant
            i <= snapshots.len(),
            file_order@.len() < usize::MAX,
            keys@.len() == i,
            forall|j: int|
                0 <= j < i ==> #[trigger] keys@[j] == order_keys(
                    snapshot_views(snapshots@),
                    texts(file_order@),
                )[j],
        decreases snapshots.len() - i,
    {
        keys.push(get_file_order_index(&snapshots[i].source_id, file_order));
        i += 1;
    }
    keys
}

/// Whether every place of `s` lies below `n`.
pub open spec fn in_range(s: Seq<usize>, n: int) -> bool {
    forall|a: int| 0 <= a < s.len() ==> 0 <= #[trigger] s[a] < n
}

/// The place at which a place of rank `rank` goes into places that stand
/// in rising order of rank: behind every place of the same or a lower rank.
pub open spec fn rank_place(sorted: Seq<usize>, ranks: Seq<int>, rank: int) -> int
    decreases sorted.len(),
{
    if sorted.len() == 0 {
        0
    } else if ranks[sorted.last() as int] > rank {
        rank_place(sorted.drop_last(), ranks, rank)
    } else {
        sorted.len() as int
    }
}

/// The places `input` in rising order of rank, places of one rank in the
/// order in which they stand in `input`.
pub open spec fn rank_sorted(input: Seq<usize>, ranks: Seq<int>) -> Seq<usize>
    decreases input.len(),
{
    if input.len() == 0 {
        Seq::empty()
    } else {
        rank_sorted(input.drop_last(), ranks).insert(
            rank_place(rank_sorted(input.drop_last(), ranks), ranks, ranks[input.last() as int]),
            input.last(),
        )
    }
}

/// Puts the places `input` in rising order of rank. Places of one rank keep
/// their order. The places may stand in any order and more than once.
pub fn sort_by_rank(input: &Vec<usize>, keys: &Vec<usize>) -> (out: Vec<usize>)
    requires
        in_range(input@, keys@.len() as int),
    ensures
        out@ == rank_sorted(input@, Seq::new(keys@.len(), |i: int| keys@[i] as int)),
        in_range(out@, keys@.len() as int),
        is_rising(input@, keys@.len() as int) ==> is_ordered(
            out@,
            Seq::new(keys@.len(), |i: int| keys@[i] as int),
        ),
        out@.to_set() == input@.to_set(),
        out@.len() == input@.len(),
{
    let ghost ranks = Seq::new(keys@.len(), |i: int| keys@[i] as int);
    let ghost rising = is_rising(input@, keys@.len() as int);
    let mut out: Vec<usize> = Vec::new();
    let mut i: usize = 0;
    proof {
        assert(input@.take(0) =~= Seq::<usize>::empty());
        assert(out@.to_set() =~= input@.take(0).to_set());
    }
    while i < input.len()
        invariant
            i <= input.len(),
            in_range(input@, keys@.len() as int),
            in_range(out@, keys@.len() as int),
            rising == is_rising(input@, keys@.len() as int),
            ranks == Seq::new(keys@.len(), |i: int| keys@[i] as int),
            out@ == rank_sorted(input@.take(i as int), ranks),
            rising ==> is_ordered(out@, ranks),
            out@.to_set() == input@.take(i as int).to_set(),
            out@.len() == i,
        decreases input.len() - i,
    {
        let item = input[i];
        let rank = keys[item];
        let mut at: usize = out.len();
        proof {
            assert(out@.take(at as int) =~= out@);
        }
        while at > 0 && keys[out[at - 1]] > rank
            invariant
                at <= out.len(),
                item < keys@.len(),
                rank == keys@[item as int],
                in_range(out@, keys@.len() as int),
                ranks == Seq::new(keys@.len(), |i: int| keys@[i] as int),
                forall|k: int| at <= k < out@.len() ==> ranks[out@[k] as int] > rank,
                rank_place(out@, ranks, rank as int) == rank_place(
                    out@.take(at as int),
                    ranks,
                    rank as int,
                ),
            decreases at,
        {
            proof {
                assert(out@.take(at as int).last() == out@[at - 1]);
                assert(out@.take(at as int).drop_last() =~= out@.take(at - 1));
            }
            at -= 1;
        }
        let ghost before = out@;
        proof {
            if at > 0 {
                assert(before.take(at as int).last() == before[at - 1]);
            }
            assert(rank_place(before, ranks, rank as int) == at);
            assert(input@.take(i + 1).drop_last() =~= input@.take(i as int));
            assert(input@.take(i + 1).last() == item);
        }
        out.insert(at, item);
        proof {
            assert(out@ =~= before.insert(at as int, item));
            if rising {
            // every place sorted so far stands before `item` in the input
            assert forall|k: int| 0 <= k < before.len() implies before[k] < item by {
                let seen = input@.take(i as int);
                assert(before.to_set().contains(before[k]));
                assert(seen.contains(before[k]));
                let w = choose|w: int| 0 <= w < seen.len() && seen[w] == before[k];
                assert(input@[w] < input@[i as int]);
            }
            assert forall|a: int, b: int| 0 <= a < b < out@.len() implies ranks[out@[a] as int]
                < ranks[out@[b] as int] || (ranks[out@[a] as int] == ranks[out@[b] as int]
                && out@[a] < out@[b]) by {
                if b < at {
                    assert(out@[a] == before[a] && out@[b] == before[b]);
                } else if b == at {
                    assert(out@[a] == before[a]);
                    if at > 0 {
                        assert(ranks[before[at - 1] as int] <= rank);
                        if a < at - 1 {
                            assert(ranks[before[a] as int] <= ranks[before[at - 1] as int]);
                        }
                    }
                } else if a < at {
                    assert(out@[a] == before[a] && out@[b] == before[b - 1]);
                } else if a == at {
                    assert(out@[b] == before[b - 1]);
                } else {
                    assert(out@[a] == before[a - 1] && out@[b] == before[b - 1]);
                }
            }
            }
            assert forall|a: int| 0 <= a < out@.len() implies 0 <= #[trigger] out@[a]
                < keys@.len() by {
                if a < at {
                    assert(out@[a] == before[a]);
                } else if a > at {
                    assert(out@[a] == before[a - 1]);
                }
            }
            let ghost seen = input@.take(i as int);
            let ghost more = input@.take(i + 1);
            assert(more =~= seen.push(item));
            assert(out@.to_set() =~= more.to_set()) by {
                assert forall|x: usize| out@.to_set().contains(x) <==> more.to_set().contains(
                    x,
                ) by {
                    if out@.contains(x) {
                        let w = choose|w: int| 0 <= w < out@.len() && out@[w] == x;
                        if w == at {
                            assert(more[i as int] == x);
                        } else {
                            let v = if w < at { w } else { w - 1 };
                            assert(before[v] == x);
                            assert(before.to_set().contains(x));
                            assert(seen.contains(x));
                            let u = choose|u: int| 0 <= u < seen.len() && seen[u] == x;
                            assert(more[u] == x);
                        }
                    }
                    if more.contains(x) {
                        let u = choose|u: int| 0 <= u < more.len() && more[u] == x;
                        if u == i {
                            assert(out@[at as int] == x);
                        } else {
                            assert(seen[u] == x);
                            assert(seen.to_set().contains(x));
                            assert(before.contains(x));
                            let w = choose|w: int| 0 <= w < before.len() && before[w] == x;
                            let v = if w < at { w } else { w + 1 };
                            assert(out@[v] == x);
                        }
                    }
                }
            }
        }
        i += 1;
    }
    assert(input@.take(input.len() as int) =~= input@);
    out
}

/// The places `0..n`.
pub fn all_places(n: usize) -> (r: Vec<usize>)
    ensures
        r@.len() == n,
        forall|i: int| 0 <= i < n ==> r@[i] == i,
        is_rising(r@, n as int),
{
    let mut r: Vec<usize> = Vec::new();
    let mut i: usize = 0;
    while i < n
        invariant
            i <= n,
            r@.len() == i,
            forall|j: int| 0 <= j < i ==> r@[j] == j,
        decreases n - i,
    {
        r.push(i);
        i += 1;
    }
    r
}

/// The places of a set have one file order: two sequences that both stand
/// in rising order of rank and hold the same places are equal.
pub proof fn lemma_order_is_unique(a: Seq<usize>, b: Seq<usize>, keys: Seq<int>)
    requires
        is_ordered(a, keys),
        is_ordered(b, keys),
        a.to_set() == b.to_set(),
    ensures
        a == b,
    decreases a.len(),
{
    if a.len() == 0 || b.len() == 0 {
        if a.len() > 0 {
            assert(a.to_set().contains(a[0]));
            assert(b.contains(a[0]));
        }
        if b.len() > 0 {
            assert(b.to_set().contains(b[0]));
            assert(a.contains(b[0]));
        }
        assert(a =~= b);
    } else {
        let last_a = a.last();
        let last_b = b.last();
        assert(a.to_set().contains(last_a));
        assert(b.contains(last_a));
        assert(b.to_set().contains(last_b));
        assert(a.contains(last_b));
        let j = choose|j: int| 0 <= j < b.len() && b[j] == last_a;
        let i = choose|i: int| 0 <= i < a.len() && a[i] == last_b;
        assert(last_a == last_b);
        let front_a = a.drop_last();
        let front_b = b.drop_last();
        assert forall|x: usize| front_a.to_set().contains(x) <==> front_b.to_set().contains(
            x,
        ) by {
            if front_a.contains(x) {
                let m = choose|m: int| 0 <= m < front_a.len() && front_a[m] == x;
                assert(a[m] == x);
                assert(a.to_set().contains(x));
                assert(b.contains(x));
                let n = choose|n: int| 0 <= n < b.len() && b[n] == x;
                assert(front_b[n] == x);
            }
            if front_b.contains(x) {
                let m = choose|m: int| 0 <= m < front_b.len() && front_b[m] == x;
                assert(b[m] == x);
                assert(b.to_set().contains(x));
                assert(a.contains(x));
                let n = choose|n: int| 0 <= n < a.len() && a[n] == x;
                assert(front_a[n] == x);
            }
        }
        assert(front_a.to_set() =~= front_b.to_set());
        assert(is_ordered(front_a, keys)) by {
            assert forall|m: int| 0 <= m < front_a.len() implies 0 <= #[trigger] front_a[m]
                < keys.len() by {
                assert(front_a[m] == a[m]);
            }
        }
        assert(is_ordered(front_b, keys)) by {
            assert forall|m: int| 0 <= m < front_b.len() implies 0 <= #[trigger] front_b[m]
                < keys.len() by {
                assert(front_b[m] == b[m]);
            }
        }
        lemma_order_is_unique(front_a, front_b, keys);
        assert(a =~= front_a.push(last_a));
        assert(b =~= front_b.push(last_b));
    }
}

/// With the file order `.env`, `.env.local`, the file `.env` of a directory
/// has the first rank among files and its file `.env.local` the second, so
/// that of the two `.env.local` is iterated last. The law speaks of the
/// directories in which the system takes `.env.local` for the name of that
/// file.
pub proof fn lemma_local_file_ranks_last(dir: Seq<char>)
    requires
        path_file_name(dir + "/.env.local"@) == Some(".env.local"@),
    ensures
        order_key("file:"@ + dir + "/.env"@, seq![".env"@, ".env.local"@]) == 1,
        order_key("file:"@ + dir + "/.env.local"@, seq![".env"@, ".env.local"@]) == 2,
{
    reveal_strlit("file:");
    reveal_strlit("/.env");
    reveal_strlit("/.env.local");
    reveal_strlit(".env");
    reveal_strlit(".env.local");
    let order = seq![".env"@, ".env.local"@];
    let plain = dir + "/.env"@;
    let local = dir + "/.env.local"@;
    let plain_id = "file:"@ + dir + "/.env"@;
    let local_id = "file:"@ + dir + "/.env.local"@;
    assert(plain_id.subrange(0, 5) =~= "file:"@);
    assert(local_id.subrange(0, 5) =~= "file:"@);
    assert(plain_id.skip(5) =~= plain);
    assert(local_id.skip(5) =~= local);
    assert(".env"@.is_suffix_of(plain)) by {
        assert(plain.subrange(plain.len() - 4, plain.len() as int) =~= ".env"@);
    }
    assert(order_match(plain, order, 0));
    assert(is_first_order_match(plain, order, 0));
    let first_plain = choose|i: int| is_first_order_match(plain, order, i);
    assert(first_plain == 0) by {
        if first_plain > 0 {
            assert(!order_match(plain, order, 0));
        }
    }
    assert(!".env"@.is_suffix_of(local)) by {
        if ".env"@.is_suffix_of(local) {
            assert(local.subrange(local.len() - 4, local.len() as int) == ".env"@);
            assert(local.subrange(local.len() - 4, local.len() as int)[3] == local[local.len()
                - 1]);
            assert(local[local.len() - 1] == 'l');
            assert(".env"@[3] == 'v');
        }
    }
    assert(".env.local"@ != ".env"@) by {
        assert(".env.local"@.len() != ".env"@.len());
    }
    assert(!order_match(local, order, 0));
    assert(order_match(local, order, 1));
    assert(is_first_order_match(local, order, 1)) by {
        assert forall|j: int| 0 <= j < 1 implies !order_match(local, order, j) by {}
    }
    let first_local = choose|i: int| is_first_order_match(local, order, i);
    assert(first_local == 1) by {
        if first_local > 1 {
            assert(!order_match(local, order, 1));
        }
    }
}

} // verus!
