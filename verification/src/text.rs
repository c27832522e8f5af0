//! Small helpers for working with owned strings and lists of strings.

use vstd::prelude::*;

verus! {

/// The character sequences of a list of strings, in order.
pub open spec fn texts(v: Seq<String>) -> Seq<Seq<char>> {
    Seq::new(v.len(), |i: int| v[i]@)
}

/// The character sequence of an optional string.
pub open spec fn opt_text(o: Option<String>) -> Option<Seq<char>> {
    match o {
        Some(s) => Some(s@),
        None => None,
    }
}

/// Copies a list of strings.
pub fn clone_strings(v: &Vec<String>) -> (r: Vec<String>)
    ensures
        r@ == v@,
{
    let mut r: Vec<String> = Vec::new();
    let mut i: usize = 0;
    while i < v.len()
        invariant
            i <= v.len(),
            r@ == v@.take(i as int),
        decreases v.len() - i,
    {
        r.push(v[i].clone());
        assert(r@ =~= v@.take(i + 1));
        i += 1;
    }
    assert(v@.take(v.len() as int) =~= v@);
    r
}

/// Copies an optional string.
pub fn clone_opt_string(o: &Option<String>) -> (r: Option<String>)
    ensures
        r == *o,
{
    match o {
        Some(s) => Some(s.clone()),
        None => None,
    }
}

/// Whether `key` stands at place `i` of `keys` and at no place before it.
pub open spec fn is_first_at(keys: Seq<Seq<char>>, key: Seq<char>, i: int) -> bool {
    &&& 0 <= i < keys.len()
    &&& keys[i] == key
    &&& forall|j: int| 0 <= j < i ==> keys[j] != key
}

/// The first place at which `key` stands in `keys`, or -1 where it stands
/// nowhere.
pub open spec fn position_of(keys: Seq<Seq<char>>, key: Seq<char>) -> int {
    if keys.contains(key) {
        choose|i: int| is_first_at(keys, key, i)
    } else {
        -1
    }
}

/// A key that stands first at `i` has `i` as its position.
pub proof fn lemma_position_of_first(keys: Seq<Seq<char>>, key: Seq<char>, i: int)
    requires
        is_first_at(keys, key, i),
    ensures
        position_of(keys, key) == i,
{
    assert(keys.contains(key));
    let c = choose|c: int| is_first_at(keys, key, c);
    assert(is_first_at(keys, key, c));
    if c < i {
        assert(keys[c] != key);
    }
    if i < c {
        assert(keys[i] != key);
    }
}

/// A key that stands nowhere has no position; one that stands somewhere has
/// a first place.
pub proof fn lemma_position_of_range(keys: Seq<Seq<char>>, key: Seq<char>)
    ensures
        -1 <= position_of(keys, key) < keys.len(),
        position_of(keys, key) >= 0 <==> keys.contains(key),
        position_of(keys, key) >= 0 ==> is_first_at(keys, key, position_of(keys, key)),
{
    if keys.contains(key) {
        let w = choose|w: int| 0 <= w < keys.len() && keys[w] == key;
        lemma_first_exists(keys, key, w);
    }
}

proof fn lemma_first_exists(keys: Seq<Seq<char>>, key: Seq<char>, w: int)
    requires
        0 <= w < keys.len(),
        keys[w] == key,
    ensures
        exists|i: int| is_first_at(keys, key, i),
    decreases w,
{
    if exists|j: int| 0 <= j < w && keys[j] == key {
        let j = choose|j: int| 0 <= j < w && keys[j] == key;
        lemma_first_exists(keys, key, j);
    } else {
        assert(is_first_at(keys, key, w));
    }
}

/// The first place at which a text stands in a list of strings.
pub fn find_text(v: &Vec<String>, s: &str) -> (r: Option<usize>)
    ensures
        match r {
            Some(i) => position_of(texts(v@), s@) == i && i < v@.len(),
            None => position_of(texts(v@), s@) == -1,
        },
{
    let mut i: usize = 0;
    while i < v.len()
        invariant
            i <= v.len(),
            forall|j: int| 0 <= j < i ==> texts(v@)[j] != s@,
        decreases v.len() - i,
    {
        if str_eq(v[i].as_str(), s) {
            proof {
                lemma_position_of_first(texts(v@), s@, i as int);
            }
            return Some(i);
        }
        i += 1;
    }
    assert(!texts(v@).contains(s@));
    None
}

/// Whether a list of strings holds the given text.
pub fn contains_text(v: &Vec<String>, s: &str) -> (b: bool)
    ensures
        b == texts(v@).contains(s@),
{
    let mut i: usize = 0;
    while i < v.len()
        invariant
            i <= v.len(),
            forall|j: int| 0 <= j < i ==> v@[j]@ != s@,
        decreases v.len() - i,
    {
        if str_eq(v[i].as_str(), s) {
            assert(texts(v@)[i as int] == s@);
            return true;
        }
        i += 1;
    }
    false
}

/// Whether two string slices hold the same text.
pub fn str_eq(a: &str, b: &str) -> (r: bool)
    ensures
        r == (a@ == b@),
{
    let x = a.to_owned();
    let y = b.to_owned();
    x == y
}

/// The characters of a string slice.
pub fn to_chars(s: &str) -> (v: Vec<char>)
    ensures
        v@ == s@,
{
    let mut v: Vec<char> = Vec::new();
    for c in it: s.chars()
        invariant
            v@ == it.seq().take(it.index() as int),
            it.seq() == s@,
    {
        v.push(c);
        assert(v@ =~= it.seq().take(it.index() + 1));
    }
    assert(s@.take(s@.len() as int) =~= s@);
    v
}

/// Whether `s` begins with `prefix`.
pub fn starts_with(s: &str, prefix: &str) -> (r: bool)
    ensures
        r == prefix@.is_prefix_of(s@),
{
    let a = to_chars(s);
    let b = to_chars(prefix);
    if b.len() > a.len() {
        return false;
    }
    let mut i: usize = 0;
    while i < b.len()
        invariant
            i <= b.len() <= a.len(),
            a@ == s@,
            b@ == prefix@,
            forall|j: int| 0 <= j < i ==> a@[j] == b@[j],
        decreases b.len() - i,
    {
        if a[i] != b[i] {
            proof {
                if prefix@.is_prefix_of(s@) {
                    assert(s@.subrange(0, prefix@.len() as int)[i as int] == prefix@[i as int]);
                }
            }
            return false;
        }
        i += 1;
    }
    assert(prefix@ =~= s@.subrange(0, prefix@.len() as int));
    true
}

/// Whether `s` ends with `suffix`.
pub fn ends_with(s: &str, suffix: &str) -> (r: bool)
    ensures
        r == suffix@.is_suffix_of(s@),
{
    let a = to_chars(s);
    let b = to_chars(suffix);
    if b.len() > a.len() {
        return false;
    }
    let shift: usize = a.len() - b.len();
    let mut i: usize = 0;
    while i < b.len()
        invariant
            i <= b.len() <= a.len(),
            shift == a.len() - b.len(),
            a@ == s@,
            b@ == suffix@,
            forall|j: int| 0 <= j < i ==> a@[shift + j] == b@[j],
        decreases b.len() - i,
    {
        if a[shift + i] != b[i] {
            proof {
                if suffix@.is_suffix_of(s@) {
                    assert(s@.subrange(s@.len() - suffix@.len(), s@.len() as int)[i as int]
                        == suffix@[i as int]);
                }
            }
            return false;
        }
        i += 1;
    }
    assert(suffix@ =~= s@.subrange(s@.len() - suffix@.len(), s@.len() as int));
    true
}

/// What follows `prefix` in `s`, where `s` begins with it.
pub fn strip_prefix(s: &str, prefix: &str) -> (r: Option<String>)
    ensures
        match r {
            Some(rest) => prefix@.is_prefix_of(s@) && rest@ == s@.skip(prefix@.len() as int),
            None => !prefix@.is_prefix_of(s@),
        },
{
    if starts_with(s, prefix) {
        let n = s.unicode_len();
        let k = prefix.unicode_len();
        let rest = s.substring_char(k, n);
        assert(s@.subrange(k as int, n as int) =~= s@.skip(k as int));
        Some(rest.to_owned())
    } else {
        None
    }
}

/// The texts of `parts`, with `separator` between each two.
pub open spec fn joined(parts: Seq<Seq<char>>, separator: Seq<char>) -> Seq<char>
    decreases parts.len(),
{
    if parts.len() == 0 {
        Seq::empty()
    } else if parts.len() == 1 {
        parts[0]
    } else {
        joined(parts.drop_last(), separator) + separator + parts.last()
    }
}

/// Joins `parts`, putting `separator` between each two.
pub fn join(parts: &Vec<String>, separator: &str) -> (r: String)
    ensures
        r@ == joined(texts(parts@), separator@),
{
    let mut out = String::new();
    let mut i: usize = 0;
    assert(texts(parts@).take(0) =~= Seq::<Seq<char>>::empty());
    while i < parts.len()
        invariant
            i <= parts.len(),
            out@ == joined(texts(parts@).take(i as int), separator@),
        decreases parts.len() - i,
    {
        let ghost before = texts(parts@).take(i as int);
        let ghost after = texts(parts@).take(i + 1);
        proof {
            assert(after.drop_last() =~= before);
            assert(after.last() == parts@[i as int]@);
        }
        if i > 0 {
            out.append(separator);
        }
        out.append(parts[i].as_str());
        proof {
            if i == 0 {
                assert(out@ =~= parts@[0]@);
                assert(after[0] == parts@[0]@);
            }
        }
        i += 1;
    }
    assert(texts(parts@).take(parts.len() as int) =~= texts(parts@));
    out
}

/// `a` followed by `b`.
pub fn concat(a: &str, b: &str) -> (r: String)
    ensures
        r@ == a@ + b@,
{
    let mut out = a.to_owned();
    out.append(b);
    out
}

/// Whether `needle` stands somewhere in `hay`.
pub open spec fn stands_within(hay: Seq<char>, needle: Seq<char>) -> bool {
    exists|i: int|
        0 <= i <= hay.len() - needle.len() && #[trigger] hay.subrange(i, i + needle.len()) == needle
}

/// Whether `needle` stands somewhere in `hay`.
pub fn contains_within(hay: &str, needle: &str) -> (r: bool)
    ensures
        r == stands_within(hay@, needle@),
{
    let a = to_chars(hay);
    let b = to_chars(needle);
    if b.len() > a.len() {
        return false;
    }
    let last: usize = a.len() - b.len();
    let mut i: usize = 0;
    loop
        invariant
            i <= last,
            last == a.len() - b.len(),
            a@ == hay@,
            b@ == needle@,
            forall|j: int| 0 <= j < i ==> #[trigger] a@.subrange(j, j + b@.len()) != b@,
        ensures
            !stands_within(hay@, needle@),
        decreases last - i,
    {
        let mut k: usize = 0;
        let mut same = true;
        while k < b.len()
            invariant
                i <= last,
                last == a.len() - b.len(),
                k <= b.len(),
                same ==> forall|x: int| 0 <= x < k ==> a@[i + x] == b@[x],
                !same ==> a@.subrange(i as int, i + b@.len()) != b@,
            decreases b.len() - k,
        {
            if a[i + k] != b[k] {
                same = false;
                proof {
                    assert(a@.subrange(i as int, i + b@.len())[k as int] == a@[i + k]);
                }
            }
            k += 1;
        }
        if same {
            assert(a@.subrange(i as int, i + b@.len()) =~= b@);
            return true;
        }
        if i == last {
            break ;
        }
        i += 1;
    }
    false
}

/// Whether the character stands in the text.
pub fn has_char(s: &str, c: char) -> (r: bool)
    ensures
        r == s@.contains(c),
{
    let a = to_chars(s);
    let mut i: usize = 0;
    while i < a.len()
        invariant
            i <= a.len(),
            a@ == s@,
            forall|j: int| 0 <= j < i ==> a@[j] != c,
        decreases a.len() - i,
    {
        if a[i] == c {
            return true;
        }
        i += 1;
    }
    false
}

/// The digit that stands for a number below ten.
pub open spec fn digit_char(d: nat) -> char {
    if d == 0 {
        '0'
    } else if d == 1 {
        '1'
    } else if d == 2 {
        '2'
    } else if d == 3 {
        '3'
    } else if d == 4 {
        '4'
    } else if d == 5 {
        '5'
    } else if d == 6 {
        '6'
    } else if d == 7 {
        '7'
    } else if d == 8 {
        '8'
    } else {
        '9'
    }
}

/// A number in decimal notation.
pub open spec fn decimal_text(n: nat) -> Seq<char>
    decreases n,
{
    if n < 10 {
        seq![digit_char(n)]
    } else {
        decimal_text(n / 10).push(digit_char(n % 10))
    }
}

/// The digit that stands for a number below ten, as text.
fn digit_text(d: u32) -> (r: &'static str)
    requires
        d < 10,
    ensures
        r@ == seq![digit_char(d as nat)],
{
    proof {
        reveal_strlit("0");
        reveal_strlit("1");
        reveal_strlit("2");
        reveal_strlit("3");
        reveal_strlit("4");
        reveal_strlit("5");
        reveal_strlit("6");
        reveal_strlit("7");
        reveal_strlit("8");
        reveal_strlit("9");
    }
    let r = if d == 0 {
        "0"
    } else if d == 1 {
        "1"
    } else if d == 2 {
        "2"
    } else if d == 3 {
        "3"
    } else if d == 4 {
        "4"
    } else if d == 5 {
        "5"
    } else if d == 6 {
        "6"
    } else if d == 7 {
        "7"
    } else if d == 8 {
        "8"
    } else {
        "9"
    };
    assert(r@ =~= seq![digit_char(d as nat)]);
    r
}

/// A number in decimal notation.
pub fn decimal(n: u32) -> (r: String)
    ensures
        r@ == decimal_text(n as nat),
    decreases n,
{
    if n < 10 {
        digit_text(n).to_owned()
    } else {
        let mut out = decimal(n / 10);
        out.append(digit_text(n % 10));
        assert(out@ =~= decimal_text((n / 10) as nat).push(digit_char((n % 10) as nat)));
        out
    }
}

/// Inserting an item adds it to what a sequence holds.
pub proof fn lemma_insert_multiset<T>(s: Seq<T>, at: int, item: T)
    requires
        0 <= at <= s.len(),
    ensures
        s.insert(at, item).to_multiset() == s.push(item).to_multiset(),
{
    broadcast use vstd::seq_lib::group_to_multiset_ensures;

    let a = s.insert(at, item);
    let b = s.push(item);
    assert(a =~= s.take(at) + seq![item] + s.skip(at));
    assert(b =~= s.take(at) + s.skip(at) + seq![item]);
    vstd::seq_lib::lemma_multiset_commutative(s.take(at) + seq![item], s.skip(at));
    vstd::seq_lib::lemma_multiset_commutative(s.take(at), seq![item]);
    vstd::seq_lib::lemma_multiset_commutative(s.take(at) + s.skip(at), seq![item]);
    vstd::seq_lib::lemma_multiset_commutative(s.take(at), s.skip(at));
    assert(a.to_multiset() =~= b.to_multiset());
}

/// The texts of `s`, each once, in the order in which they first stand.
pub open spec fn distinct(s: Seq<Seq<char>>) -> Seq<Seq<char>>
    decreases s.len(),
{
    if s.len() == 0 {
        Seq::empty()
    } else if distinct(s.drop_last()).contains(s.last()) {
        distinct(s.drop_last())
    } else {
        distinct(s.drop_last()).push(s.last())
    }
}

} // verus!
