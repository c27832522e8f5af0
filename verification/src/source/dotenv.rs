//! Dotenv texts: the pairs that the parser finds, and edits of single
//! lines that leave every other line as it is.

use vstd::prelude::*;
use crate::error::SourceError;
use crate::text::{concat, join, joined, texts, to_chars};

verus! {

/// A `KEY=VALUE` pair as the parser reports it.
#[derive(Debug)]
pub struct DotenvPair {
    pub key: String,
    pub value: String,
    pub key_offset: Option<usize>,
    pub is_comment: bool,
}

/// A pair as plain values: key, value, offset of the key and whether the
/// pair stands in a comment.
pub type PairView = (Seq<char>, Seq<char>, Option<usize>, bool);

pub open spec fn pair_views(v: Seq<DotenvPair>) -> Seq<PairView> {
    Seq::new(v.len(), |i: int| (v[i].key@, v[i].value@, v[i].key_offset, v[i].is_comment))
}

/// An entry of a dotenv text as the parser reports it: a pair, a comment,
/// or a line that it could not read.
#[derive(Debug)]
pub enum DotenvEntry {
    Pair(DotenvPair),
    Comment,
    Error,
}

/// An entry as plain values.
pub enum DotenvEntryView {
    Pair(PairView),
    Comment,
    Error,
}

pub open spec fn entry_views(v: Seq<DotenvEntry>) -> Seq<DotenvEntryView> {
    Seq::new(
        v.len(),
        |i: int|
            match v[i] {
                DotenvEntry::Pair(pair) => DotenvEntryView::Pair(
                    (pair.key@, pair.value@, pair.key_offset, pair.is_comment),
                ),
                DotenvEntry::Comment => DotenvEntryView::Comment,
                DotenvEntry::Error => DotenvEntryView::Error,
            },
    )
}

/// The entries that `korni` finds in a dotenv text when it tracks positions
/// and leaves comments out.
pub uninterp spec fn dotenv_entries(content: Seq<char>) -> Seq<DotenvEntryView>;

/// Wraps `korni::parse_with_options`, with positions tracked and comments
/// left out: the entries it reports, in order.
#[verifier::external_body]
fn parse_entries(content: &str) -> (r: Vec<DotenvEntry>)
    ensures
        entry_views(r@) == dotenv_entries(content@),
{
    let options = korni::ParseOptions { track_positions: true, include_comments: false };
    let mut entries = Vec::new();
    for entry in korni::parse_with_options(content, options) {
        entries.push(match entry {
            korni::Entry::Pair(kv) => DotenvEntry::Pair(DotenvPair {
                key: kv.key.into_owned(),
                value: kv.value.into_owned(),
                key_offset: kv.key_span.map(|span| span.start.offset),
                is_comment: kv.is_comment,
            }),
            korni::Entry::Comment(_) => DotenvEntry::Comment,
            korni::Entry::Error(_) => DotenvEntry::Error,
        });
    }
    entries
}

/// The pairs among entries, in order.
pub open spec fn pairs_among(entries: Seq<DotenvEntryView>) -> Seq<PairView>
    decreases entries.len(),
{
    if entries.len() == 0 {
        Seq::empty()
    } else {
        match entries.last() {
            DotenvEntryView::Pair(pair) => pairs_among(entries.drop_last()).push(pair),
            _ => pairs_among(entries.drop_last()),
        }
    }
}

/// The pairs of a dotenv text: what the parser reports, without the
/// comments and without the lines that it could not read.
pub open spec fn dotenv_pairs(content: Seq<char>) -> Seq<PairView> {
    pairs_among(dotenv_entries(content))
}

/// The pairs of a dotenv text.
pub fn parse_pairs(content: &str) -> (r: Vec<DotenvPair>)
    ensures
        pair_views(r@) == dotenv_pairs(content@),
{
    let entries = parse_entries(content);
    let ghost all = entry_views(entries@);
    let mut pairs: Vec<DotenvPair> = Vec::new();
    let mut i: usize = 0;
    proof {
        assert(all.take(0) =~= Seq::<DotenvEntryView>::empty());
        assert(pair_views(pairs@) =~= Seq::<PairView>::empty());
    }
    while i < entries.len()
        invariant
            i <= entries.len(),
            all == entry_views(entries@),
            pair_views(pairs@) == pairs_among(all.take(i as int)),
        decreases entries.len() - i,
    {
        let ghost before = pair_views(pairs@);
        proof {
            assert(all.take(i + 1).drop_last() =~= all.take(i as int));
            assert(all.take(i + 1).last() == all[i as int]);
        }
        match &entries[i] {
            DotenvEntry::Pair(pair) => {
                pairs.push(
                    DotenvPair {
                        key: pair.key.clone(),
                        value: pair.value.clone(),
                        key_offset: pair.key_offset,
                        is_comment: pair.is_comment,
                    },
                );
                proof {
                    assert(pair_views(pairs@) =~= before.push(
                        (pair.key@, pair.value@, pair.key_offset, pair.is_comment),
                    ));
                }
            },
            DotenvEntry::Comment => {},
            DotenvEntry::Error => {},
        }
        i += 1;
    }
    proof {
        assert(all.take(entries.len() as int) =~= all);
    }
    pairs
}

/// Whether a character is white space, as Unicode has it.
pub open spec fn is_space(c: char) -> bool {
    let n = c as u32;
    ||| 9 <= n <= 13
    ||| n == 0x20
    ||| n == 0x85
    ||| n == 0xA0
    ||| n == 0x1680
    ||| 0x2000 <= n <= 0x200A
    ||| n == 0x2028
    ||| n == 0x2029
    ||| n == 0x202F
    ||| n == 0x205F
    ||| n == 0x3000
}

/// Whether a character is white space.
pub fn space(c: char) -> (r: bool)
    ensures
        r == is_space(c),
{
    let n = c as u32;
    (9 <= n && n <= 13) || n == 0x20 || n == 0x85 || n == 0xA0 || n == 0x1680 || (0x2000 <= n && n
        <= 0x200A) || n == 0x2028 || n == 0x2029 || n == 0x202F || n == 0x205F || n == 0x3000
}

/// The first place from `from` on at which `c` stands, or the length of the
/// text.
pub open spec fn next_index(text: Seq<char>, c: char, from: int) -> int
    decreases text.len() - from,
{
    if from >= text.len() {
        text.len() as int
    } else if text[from] == c {
        from
    } else {
        next_index(text, c, from + 1)
    }
}

/// The lines of a text, as pairs of the place where a line begins and the
/// place where it ends, read from `at` on, with the line at hand beginning
/// at `start`. A line ends before a line feed, or before a carriage return
/// that a line feed follows; the last line may end with the text.
pub open spec fn line_ranges(text: Seq<char>, start: int, at: int) -> Seq<(int, int)>
    decreases text.len() - at,
{
    if at >= text.len() {
        if start < text.len() {
            seq![(start, text.len() as int)]
        } else {
            Seq::empty()
        }
    } else if text[at] == '\n' {
        seq![
            (
                start,
                if at > start && text[at - 1] == '\r' {
                    at - 1
                } else {
                    at
                },
            ),
        ] + line_ranges(text, at + 1, at + 1)
    } else {
        line_ranges(text, start, at + 1)
    }
}

/// The lines of a text.
pub open spec fn lines_of(text: Seq<char>) -> Seq<Seq<char>> {
    Seq::new(
        line_ranges(text, 0, 0).len(),
        |i: int| text.subrange(line_ranges(text, 0, 0)[i].0, line_ranges(text, 0, 0)[i].1),
    )
}

/// The number of white-space characters at the start of a text.
pub open spec fn leading_spaces(s: Seq<char>) -> int
    decreases s.len(),
{
    if s.len() > 0 && is_space(s[0]) {
        1 + leading_spaces(s.drop_first())
    } else {
        0
    }
}

/// The number of white-space characters at the end of a text.
pub open spec fn trailing_spaces(s: Seq<char>) -> int
    decreases s.len(),
{
    if s.len() > 0 && is_space(s.last()) {
        1 + trailing_spaces(s.drop_last())
    } else {
        0
    }
}

/// A text without the white space at its start and at its end.
pub open spec fn trimmed(s: Seq<char>) -> Seq<char> {
    if leading_spaces(s) >= s.len() {
        Seq::empty()
    } else {
        s.subrange(leading_spaces(s), s.len() - trailing_spaces(s))
    }
}

/// The key of a line: what stands before its first `=`, without the white
/// space around it. A line without `=` has no key.
pub open spec fn line_key(line: Seq<char>) -> Option<Seq<char>> {
    if next_index(line, '=', 0) < line.len() {
        Some(trimmed(line.take(next_index(line, '=', 0))))
    } else {
        None
    }
}

/// Whether `i` is the first line with the key `key`.
pub open spec fn is_first_line_of(lines: Seq<Seq<char>>, key: Seq<char>, i: int) -> bool {
    &&& 0 <= i < lines.len()
    &&& line_key(lines[i]) == Some(key)
    &&& forall|j: int| 0 <= j < i ==> line_key(#[trigger] lines[j]) != Some(key)
}

/// Whether some line has the key `key`.
pub open spec fn has_line_of(lines: Seq<Seq<char>>, key: Seq<char>) -> bool {
    exists|i: int| 0 <= i < lines.len() && line_key(#[trigger] lines[i]) == Some(key)
}

/// The line `line` with `value` behind its first `=`.
pub open spec fn line_with_value(line: Seq<char>, value: Seq<char>) -> Seq<char> {
    line.take(next_index(line, '=', 0) + 1) + value
}

/// The text after `key` was set to `value`: the first line with the key
/// gets the value behind its `=`, every other line stays as it is, and the
/// lines are joined by line feeds. `None` where no line has the key.
pub open spec fn text_with_value(content: Seq<char>, key: Seq<char>, value: Seq<char>) -> Option<
    Seq<char>,
> {
    let lines = lines_of(content);
    if has_line_of(lines, key) {
        let i = choose|i: int| is_first_line_of(lines, key, i);
        Some(joined(lines.update(i, line_with_value(lines[i], value)), "\n"@))
    } else {
        None
    }
}

/// The text without the lines that have the key `key`; the other lines stay
/// as they are and are joined by line feeds.
pub open spec fn text_without_key(content: Seq<char>, key: Seq<char>) -> Seq<char> {
    joined(lines_of(content).filter(|line: Seq<char>| line_key(line) != Some(key)), "\n"@)
}

/// Whether an error says that `operation` found no line with the key.
pub open spec fn is_key_missing(e: SourceError, operation: Seq<char>, key: Seq<char>) -> bool {
    match e {
        SourceError::UnsupportedOperation { operation: o, source_type, reason } => o@ == operation
            && source_type@ == "FileSource"@ && reason@ == "Key '"@ + key + "' not found in file"@,
        _ => false,
    }
}

/// The lines of a text, as pairs of the places where each begins and ends.
pub fn split_lines(text: &Vec<char>) -> (r: Vec<(usize, usize)>)
    ensures
        r@.len() == line_ranges(text@, 0, 0).len(),
        forall|i: int|
            0 <= i < r@.len() ==> (#[trigger] r@[i]).0 == line_ranges(text@, 0, 0)[i].0 && r@[i].1
                == line_ranges(text@, 0, 0)[i].1,
        forall|i: int| 0 <= i < r@.len() ==> (#[trigger] r@[i]).0 <= r@[i].1 <= text@.len(),
{
    let mut out: Vec<(usize, usize)> = Vec::new();
    let mut start: usize = 0;
    let mut at: usize = 0;
    let ghost all = line_ranges(text@, 0, 0);
    while at < text.len()
        invariant
            start <= at <= text.len(),
            all == line_ranges(text@, 0, 0),
            all.len() == out@.len() + line_ranges(text@, start as int, at as int).len(),
            forall|i: int|
                0 <= i < out@.len() ==> (#[trigger] out@[i]).0 == all[i].0 && out@[i].1 == all[i].1,
            forall|i: int|
                0 <= i < line_ranges(text@, start as int, at as int).len() ==> all[out@.len() + i]
                    == #[trigger] line_ranges(text@, start as int, at as int)[i],
            forall|i: int| 0 <= i < out@.len() ==> (#[trigger] out@[i]).0 <= out@[i].1 <= text@.len(),
        decreases text.len() - at,
    {
        let ghost rest = line_ranges(text@, start as int, at as int);
        let ghost before = out@;
        if text[at] == '\n' {
            let end: usize = if at > start && text[at - 1] == '\r' {
                at - 1
            } else {
                at
            };
            out.push((start, end));
            proof {
                let tail = line_ranges(text@, at + 1, at + 1);
                assert(rest =~= seq![(start as int, end as int)] + tail);
                assert(all[before.len() as int] == rest[0]);
                assert forall|i: int| 0 <= i < tail.len() implies all[out@.len() + i]
                    == #[trigger] tail[i] by {
                    assert(rest[i + 1] == tail[i]);
                    assert(all[before.len() + (i + 1)] == rest[i + 1]);
                }
            }
            start = at + 1;
        }
        at += 1;
    }
    if start < text.len() {
        let ghost rest = line_ranges(text@, start as int, at as int);
        let ghost before = out@;
        out.push((start, text.len()));
        proof {
            assert(rest =~= seq![(start as int, text@.len() as int)]);
            assert(all[before.len() as int] == rest[0]);
        }
    }
    out
}

/// The places between which a text stands without the white space around
/// it.
pub fn trim_range(text: &Vec<char>, from: usize, to: usize) -> (r: (usize, usize))
    requires
        from <= to <= text@.len(),
    ensures
        from <= r.0 <= r.1 <= to,
        text@.subrange(r.0 as int, r.1 as int) == trimmed(text@.subrange(from as int, to as int)),
{
    let ghost s = text@.subrange(from as int, to as int);
    let mut a: usize = from;
    while a < to && space(text[a])
        invariant
            from <= a <= to <= text@.len(),
            s == text@.subrange(from as int, to as int),
            leading_spaces(s) == (a - from) + leading_spaces(text@.subrange(a as int, to as int)),
        decreases to - a,
    {
        proof {
            let here = text@.subrange(a as int, to as int);
            assert(here[0] == text@[a as int]);
            assert(here.drop_first() =~= text@.subrange(a + 1, to as int));
        }
        a += 1;
    }
    proof {
        let here = text@.subrange(a as int, to as int);
        if a < to {
            assert(here[0] == text@[a as int]);
        }
        assert(leading_spaces(here) == 0);
    }
    if a >= to {
        proof {
            assert(text@.subrange(a as int, a as int) =~= Seq::<char>::empty());
        }
        return (a, a);
    }
    let mut b: usize = to;
    while b > a && space(text[b - 1])
        invariant
            from <= a < b <= to <= text@.len(),
            s == text@.subrange(from as int, to as int),
            !is_space(text@[a as int]),
            trailing_spaces(s) == (to - b) + trailing_spaces(text@.subrange(from as int, b as int)),
        decreases b,
    {
        proof {
            let here = text@.subrange(from as int, b as int);
            assert(here.last() == text@[b - 1]);
            assert(here.drop_last() =~= text@.subrange(from as int, b - 1));
        }
        b -= 1;
    }
    proof {
        let here = text@.subrange(from as int, b as int);
        assert(here.last() == text@[b - 1]);
        assert(trailing_spaces(here) == 0);
        assert(text@.subrange(a as int, b as int) =~= s.subrange(a - from, s.len() - (to - b)));
    }
    (a, b)
}

/// Whether the text between `from` and `to` is `key`.
pub fn range_equals(text: &Vec<char>, from: usize, to: usize, key: &Vec<char>) -> (r: bool)
    requires
        from <= to <= text@.len(),
    ensures
        r == (text@.subrange(from as int, to as int) == key@),
{
    if to - from != key.len() {
        return false;
    }
    let mut i: usize = 0;
    while i < key.len()
        invariant
            from <= to <= text@.len(),
            to - from == key@.len(),
            i <= key.len(),
            forall|j: int| 0 <= j < i ==> text@[from + j] == key@[j],
        decreases key.len() - i,
    {
        if text[from + i] != key[i] {
            proof {
                assert(text@.subrange(from as int, to as int)[i as int] == text@[from + i]);
            }
            return false;
        }
        i += 1;
    }
    assert(text@.subrange(from as int, to as int) =~= key@);
    true
}

/// Whether the line between `from` and `to` has the key `key`; and the
/// place of its first `=`.
pub fn line_has_key(text: &Vec<char>, from: usize, to: usize, key: &Vec<char>) -> (r: (bool, usize))
    requires
        from <= to <= text@.len(),
    ensures
        r.0 == (line_key(text@.subrange(from as int, to as int)) == Some(key@)),
        r.0 ==> from <= r.1 < to && r.1 - from == next_index(
            text@.subrange(from as int, to as int),
            '=',
            0,
        ),
{
    let ghost line = text@.subrange(from as int, to as int);
    let mut eq: usize = from;
    while eq < to && text[eq] != '='
        invariant
            from <= eq <= to <= text@.len(),
            line == text@.subrange(from as int, to as int),
            next_index(line, '=', 0) == next_index(line, '=', eq - from),
        decreases to - eq,
    {
        proof {
            assert(line[eq - from] == text@[eq as int]);
        }
        eq += 1;
    }
    proof {
        if eq < to {
            assert(line[eq - from] == text@[eq as int]);
        }
        assert(next_index(line, '=', 0) == eq - from);
    }
    if eq >= to {
        return (false, eq);
    }
    let range = trim_range(text, from, eq);
    proof {
        assert(line.take(eq - from) =~= text@.subrange(from as int, eq as int));
    }
    (range_equals(text, range.0, range.1, key), eq)
}

/// Sets `key` to `value` in a dotenv text: the first line with the key gets
/// the value behind its `=`; every other line stays as it is. A text
/// without the key is refused.
pub fn set_in_text(content: &str, key: &str, value: &str) -> (r: Result<String, SourceError>)
    ensures
        match r {
            Ok(text) => text_with_value(content@, key@, value@) == Some(text@),
            Err(e) => text_with_value(content@, key@, value@) is None && is_key_missing(
                e,
                "set_variable"@,
                key@,
            ),
        },
{
    let text = to_chars(content);
    let wanted = to_chars(key);
    let ranges = split_lines(&text);
    let ghost lines = lines_of(content@);
    let mut lines_out: Vec<String> = Vec::new();
    let mut found = false;
    let ghost mut at: int = -1;
    let mut i: usize = 0;
    while i < ranges.len()
        invariant
            i <= ranges.len(),
            text@ == content@,
            wanted@ == key@,
            lines == lines_of(content@),
            ranges@.len() == lines.len(),
            forall|k: int|
                0 <= k < ranges@.len() ==> (#[trigger] ranges@[k]).0 <= ranges@[k].1 <= text@.len()
                    && lines[k] == text@.subrange(ranges@[k].0 as int, ranges@[k].1 as int),
            lines_out@.len() == i,
            found ==> is_first_line_of(lines, key@, at) && at < i,
            !found ==> forall|j: int| 0 <= j < i ==> line_key(#[trigger] lines[j]) != Some(key@),
            forall|k: int|
                0 <= k < i ==> (#[trigger] lines_out@[k])@ == if found && k == at {
                    line_with_value(lines[k], value@)
                } else {
                    lines[k]
                },
        decreases ranges.len() - i,
    {
        let from = ranges[i].0;
        let to = ranges[i].1;
        let matches = if found {
            (false, from)
        } else {
            line_has_key(&text, from, to, &wanted)
        };
        if matches.0 {
            let prefix = content.substring_char(from, matches.1 + 1);
            lines_out.push(concat(prefix, value));
            proof {
                at = i as int;
                assert(prefix@ =~= lines[i as int].take(next_index(lines[i as int], '=', 0) + 1));
            }
            found = true;
        } else {
            let line = content.substring_char(from, to);
            lines_out.push(line.to_owned());
        }
        i += 1;
    }
    if !found {
        let reason = concat(concat("Key '", key).as_str(), "' not found in file");
        proof {
            assert(!has_line_of(lines, key@));
        }
        return Err(
            SourceError::UnsupportedOperation {
                operation: "set_variable".to_owned(),
                source_type: "FileSource".to_owned(),
                reason,
            },
        );
    }
    proof {
        let c = choose|c: int| is_first_line_of(lines, key@, c);
        assert(has_line_of(lines, key@));
        if c < at {
            assert(line_key(lines[c]) != Some(key@));
        }
        if at < c {
            assert(line_key(lines[at]) != Some(key@));
        }
        assert(texts(lines_out@) =~= lines.update(at, line_with_value(lines[at], value@)));
    }
    Ok(join(&lines_out, "\n"))
}

/// Removes `key` from a dotenv text: every line with the key is dropped,
/// every other line stays as it is.
pub fn remove_from_text(content: &str, key: &str) -> (r: String)
    ensures
        r@ == text_without_key(content@, key@),
{
    let text = to_chars(content);
    let wanted = to_chars(key);
    let ranges = split_lines(&text);
    let ghost lines = lines_of(content@);
    let ghost keep = |line: Seq<char>| line_key(line) != Some(key@);
    let mut lines_out: Vec<String> = Vec::new();
    let mut i: usize = 0;
    proof {
        assert(lines.take(0) =~= Seq::<Seq<char>>::empty());
        assert(texts(lines_out@) =~= lines.take(0).filter(keep));
    }
    while i < ranges.len()
        invariant
            i <= ranges.len(),
            text@ == content@,
            wanted@ == key@,
            lines == lines_of(content@),
            keep == (|line: Seq<char>| line_key(line) != Some(key@)),
            ranges@.len() == lines.len(),
            forall|k: int|
                0 <= k < ranges@.len() ==> (#[trigger] ranges@[k]).0 <= ranges@[k].1 <= text@.len()
                    && lines[k] == text@.subrange(ranges@[k].0 as int, ranges@[k].1 as int),
            texts(lines_out@) == lines.take(i as int).filter(keep),
        decreases ranges.len() - i,
    {
        let from = ranges[i].0;
        let to = ranges[i].1;
        let matches = line_has_key(&text, from, to, &wanted);
        proof {
            crate::source::registry::lemma_filter_step(lines, i as int, keep);
        }
        if !matches.0 {
            let ghost before = texts(lines_out@);
            let line = content.substring_char(from, to);
            lines_out.push(line.to_owned());
            proof {
                assert(texts(lines_out@) =~= before.push(lines[i as int]));
            }
        }
        i += 1;
    }
    proof {
        assert(lines.take(lines.len() as int) =~= lines);
    }
    join(&lines_out, "\n")
}

/// Setting a key changes the first line with the key and no other line.
pub proof fn lemma_set_preserves_other_lines(
    content: Seq<char>,
    key: Seq<char>,
    value: Seq<char>,
    i: int,
)
    requires
        is_first_line_of(lines_of(content), key, i),
    ensures
        text_with_value(content, key, value) == Some(
            joined(
                lines_of(content).update(i, line_with_value(lines_of(content)[i], value)),
                "\n"@,
            ),
        ),
        forall|j: int|
            0 <= j < lines_of(content).len() && j != i ==> #[trigger] lines_of(content).update(
                i,
                line_with_value(lines_of(content)[i], value),
            )[j] == lines_of(content)[j],
        line_with_value(lines_of(content)[i], value).take(
            next_index(lines_of(content)[i], '=', 0) + 1,
        ) == lines_of(content)[i].take(next_index(lines_of(content)[i], '=', 0) + 1),
{
    let lines = lines_of(content);
    assert(has_line_of(lines, key));
    let c = choose|c: int| is_first_line_of(lines, key, c);
    if c < i {
        assert(line_key(lines[c]) != Some(key));
    }
    if i < c {
        assert(line_key(lines[i]) != Some(key));
    }
    let line = lines[i];
    let eq = next_index(line, '=', 0);
    lemma_next_index_range(line, '=', 0);
    assert(line_with_value(line, value).take(eq + 1) =~= line.take(eq + 1));
}

/// The next place of a character lies between the start and the end.
pub proof fn lemma_next_index_range(text: Seq<char>, c: char, from: int)
    requires
        0 <= from <= text.len(),
    ensures
        from <= next_index(text, c, from) <= text.len(),
    decreases text.len() - from,
{
    if from < text.len() && text[from] != c {
        lemma_next_index_range(text, c, from + 1);
    }
}

} // verus!
