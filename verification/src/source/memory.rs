//! Variables set by the program itself, kept in the order they were first set.

use vstd::prelude::*;
use crate::error::SourceError;

use crate::source::traits::{
    EnvSource, Priority, SourceCapabilities, SourceId, SourceSnapshot, SourceType,
};
use crate::source::variable::{
    variable_views, ParsedVariable, ParsedVariableView, VariableSource, VariableSourceView,
};
use crate::text::{clone_opt_string, opt_text};

verus! {

/// `indexmap::IndexMap`, held as a value that only its own functions look into.
#[verifier::external_type_specification]
#[verifier::external_body]
#[verifier::reject_recursive_types(K)]
#[verifier::reject_recursive_types(V)]
#[verifier::reject_recursive_types(S)]
pub struct ExIndexMap<K, V, S>(indexmap::IndexMap<K, V, S>);

/// One entry of the store: the key, then the value and its description.
pub type EntryView = (Seq<char>, (Seq<char>, Option<Seq<char>>));

/// What an `IndexMap` from keys to values and descriptions holds, in its
/// order.
pub uninterp spec fn memory_entries(
    m: indexmap::IndexMap<String, (String, Option<String>)>,
) -> Seq<EntryView>;

/// Whether some entry has the key.
pub open spec fn has_key(entries: Seq<EntryView>, key: Seq<char>) -> bool {
    exists|i: int| 0 <= i < entries.len() && (#[trigger] entries[i]).0 == key
}

/// A place at which the key stands; meaningful where `has_key` holds.
pub open spec fn key_position(entries: Seq<EntryView>, key: Seq<char>) -> int {
    choose|i: int| 0 <= i < entries.len() && (#[trigger] entries[i]).0 == key
}

/// No key stands at two places.
pub open spec fn keys_distinct(entries: Seq<EntryView>) -> bool {
    forall|i: int, j: int|
        0 <= i < entries.len() && 0 <= j < entries.len() && (#[trigger] entries[i]).0 == (
        #[trigger] entries[j]).0 ==> i == j
}

/// The entries after `key` was set: an old entry keeps its place and gets the
/// new value, a new one goes to the end.
pub open spec fn set_entry(
    entries: Seq<EntryView>,
    key: Seq<char>,
    value: Seq<char>,
    description: Option<Seq<char>>,
) -> Seq<EntryView> {
    if has_key(entries, key) {
        entries.update(key_position(entries, key), (key, (value, description)))
    } else {
        entries.push((key, (value, description)))
    }
}

/// The entries after `key` was removed: the last entry takes the freed place.
pub open spec fn remove_entry(entries: Seq<EntryView>, key: Seq<char>) -> Seq<EntryView> {
    if has_key(entries, key) {
        entries.update(key_position(entries, key), entries.last()).drop_last()
    } else {
        entries
    }
}

/// The variable that an entry stands for.
pub open spec fn entry_variable(e: EntryView) -> ParsedVariableView {
    ParsedVariableView {
        key: e.0,
        raw_value: e.1.0,
        source: VariableSourceView::Memory,
        description: e.1.1,
        is_commented: false,
    }
}

pub open spec fn entry_variables(entries: Seq<EntryView>) -> Seq<ParsedVariableView> {
    Seq::new(entries.len(), |i: int| entry_variable(entries[i]))
}

pub open spec fn entry_view(e: (String, (String, Option<String>))) -> EntryView {
    (e.0@, (e.1.0@, opt_text(e.1.1)))
}

pub open spec fn entry_views(v: Seq<(String, (String, Option<String>))>) -> Seq<EntryView> {
    Seq::new(v.len(), |i: int| entry_view(v[i]))
}

/// Wraps `IndexMap::new`: a map that holds nothing.
#[verifier::external_body]
fn entries_new() -> (m: indexmap::IndexMap<String, (String, Option<String>)>)
    ensures
        memory_entries(m) == Seq::<EntryView>::empty(),
{
    indexmap::IndexMap::new()
}

/// Wraps `IndexMap::insert`. A key that the map holds keeps its place and
/// gets the new value, and the old value is returned; a new key is added
/// last and `None` is returned. The keys stay distinct.
#[verifier::external_body]
fn entries_insert(
    m: &mut indexmap::IndexMap<String, (String, Option<String>)>,
    key: String,
    value: (String, Option<String>),
) -> (replaced: Option<(String, Option<String>)>)
    ensures
        memory_entries(*final(m)) == set_entry(
            memory_entries(*old(m)),
            key@,
            value.0@,
            opt_text(value.1),
        ),
        keys_distinct(memory_entries(*final(m))),
        replaced is Some == has_key(memory_entries(*old(m)), key@),
        replaced matches Some(r) ==> (r.0@, opt_text(r.1)) == memory_entries(*old(m))[key_position(
            memory_entries(*old(m)),
            key@,
        )].1,
{
    m.insert(key, value)
}

/// Wraps `IndexMap::swap_remove`. A key that the map holds is removed, its
/// value is returned, and the last entry takes the freed place; for another
/// key the map stays as it is and `None` is returned. The keys stay distinct.
#[verifier::external_body]
fn entries_swap_remove(
    m: &mut indexmap::IndexMap<String, (String, Option<String>)>,
    key: &str,
) -> (removed: Option<(String, Option<String>)>)
    ensures
        memory_entries(*final(m)) == remove_entry(memory_entries(*old(m)), key@),
        keys_distinct(memory_entries(*final(m))),
        removed is Some == has_key(memory_entries(*old(m)), key@),
        removed matches Some(r) ==> (r.0@, opt_text(r.1)) == memory_entries(*old(m))[key_position(
            memory_entries(*old(m)),
            key@,
        )].1,
{
    m.swap_remove(key)
}

/// Wraps `IndexMap::clear`: the map holds nothing afterwards.
#[verifier::external_body]
fn entries_clear(m: &mut indexmap::IndexMap<String, (String, Option<String>)>)
    ensures
        memory_entries(*final(m)) == Seq::<EntryView>::empty(),
{
    m.clear()
}

/// Wraps `IndexMap::len`: the number of entries.
#[verifier::external_body]
fn entries_len(m: &indexmap::IndexMap<String, (String, Option<String>)>) -> (n: usize)
    ensures
        n == memory_entries(*m).len(),
{
    m.len()
}

/// Wraps `IndexMap::iter`: hands out a copy of every entry, in the map's
/// order.
#[verifier::external_body]
fn entries_to_vec(m: &indexmap::IndexMap<String, (String, Option<String>)>) -> (v: Vec<
    (String, (String, Option<String>)),
>)
    ensures
        entry_views(v@) == memory_entries(*m),
{
    m.iter().map(|(k, v)| (k.clone(), v.clone())).collect()
}

/// An in-memory source. Every change raises its version by one.
pub struct MemorySource {
    id: SourceId,
    variables: indexmap::IndexMap<String, (String, Option<String>)>,
    version: u64,
}

impl MemorySource {
    /// The entries of the store, in order.
    pub closed spec fn entries(&self) -> Seq<EntryView> {
        memory_entries(self.variables)
    }

    /// The number of changes made so far.
    pub closed spec fn version(&self) -> u64 {
        self.version
    }

    /// The store is named `memory` and holds no key twice.
    pub open spec fn wf(&self) -> bool {
        &&& self.id_text() == "memory"@
        &&& keys_distinct(self.entries())
    }

    /// A store named `memory` that holds nothing and was never changed.
    pub fn new() -> (r: Self)
        ensures
            r.wf(),
            r.id_text() == "memory"@,
            r.entries() == Seq::<EntryView>::empty(),
            r.version() == 0,
    {
        MemorySource { id: SourceId::new("memory"), variables: entries_new(), version: 0 }
    }

    /// Sets `key` to `value`, without a description.
    pub fn set(&mut self, key: &str, value: &str)
        requires
            old(self).wf(),
            old(self).version() < u64::MAX,
        ensures
            final(self).wf(),
            final(self).entries() == set_entry(old(self).entries(), key@, value@, None),
            final(self).version() == old(self).version() + 1,
    {
        let _ = entries_insert(&mut self.variables, key.to_owned(), (value.to_owned(), None));
        self.version = self.version + 1;
    }

    /// Sets `key` to `value` and describes it.
    pub fn set_with_description(&mut self, key: &str, value: &str, description: &str)
        requires
            old(self).wf(),
            old(self).version() < u64::MAX,
        ensures
            final(self).wf(),
            final(self).entries() == set_entry(
                old(self).entries(),
                key@,
                value@,
                Some(description@),
            ),
            final(self).version() == old(self).version() + 1,
    {
        let _ = entries_insert(
            &mut self.variables,
            key.to_owned(),
            (value.to_owned(), Some(description.to_owned())),
        );
        self.version = self.version + 1;
    }

    /// Removes `key` and returns what it stood for. A key that is not there
    /// leaves the store and its version as they are.
    pub fn remove(&mut self, key: &str) -> (r: Option<ParsedVariable>)
        requires
            old(self).wf(),
            old(self).version() < u64::MAX,
        ensures
            final(self).wf(),
            final(self).entries() == remove_entry(old(self).entries(), key@),
            r is Some == has_key(old(self).entries(), key@),
            r matches Some(v) ==> v@ == entry_variable(
                old(self).entries()[key_position(old(self).entries(), key@)],
            ),
            final(self).version() == if has_key(old(self).entries(), key@) {
                old(self).version() + 1
            } else {
                old(self).version() as int
            },
    {
        let removed = entries_swap_remove(&mut self.variables, key);
        match removed {
            Some((value, description)) => {
                self.version = self.version + 1;
                Some(
                    ParsedVariable {
                        key: key.to_owned(),
                        raw_value: value,
                        source: VariableSource::Memory,
                        description,
                        is_commented: false,
                    },
                )
            },
            None => None,
        }
    }

    /// Removes every entry.
    pub fn clear(&mut self)
        requires
            old(self).wf(),
            old(self).version() < u64::MAX,
        ensures
            final(self).wf(),
            final(self).entries() == Seq::<EntryView>::empty(),
            final(self).version() == old(self).version() + 1,
    {
        entries_clear(&mut self.variables);
        self.version = self.version + 1;
    }

    pub fn len(&self) -> (n: usize)
        ensures
            n == self.entries().len(),
    {
        entries_len(&self.variables)
    }

    pub fn is_empty(&self) -> (b: bool)
        ensures
            b == (self.entries().len() == 0),
    {
        entries_len(&self.variables) == 0
    }

    /// The variables of the store, in order, under the current version.
    pub fn snapshot(&self) -> (s: SourceSnapshot)
        ensures
            s.source_id@ == self.id_text(),
            variable_views(s.variables@) == entry_variables(self.entries()),
            s.version == Some(self.version()),
    {
        let entries = entries_to_vec(&self.variables);
        let mut vars: Vec<ParsedVariable> = Vec::new();
        let mut i: usize = 0;
        while i < entries.len()
            invariant
                i <= entries.len(),
                vars@.len() == i,
                forall|j: int| 0 <= j < i ==> vars@[j]@ == entry_variable(entry_view(entries@[j])),
            decreases entries.len() - i,
        {
            let e = &entries[i];
            vars.push(
                ParsedVariable {
                    key: e.0.clone(),
                    raw_value: e.1.0.clone(),
                    source: VariableSource::Memory,
                    description: clone_opt_string(&e.1.1),
                    is_commented: false,
                },
            );
            i += 1;
        }
        proof {
            let views = entry_views(entries@);
            assert(views == self.entries());
            assert forall|j: int| 0 <= j < vars@.len() implies variable_views(vars@)[j]
                == entry_variables(self.entries())[j] by {
                assert(views[j] == entry_view(entries@[j]));
            }
            assert(variable_views(vars@) =~= entry_variables(self.entries()));
        }
        SourceSnapshot::new(self.id.clone(), vars, Some(self.version))
    }
}

impl Default for MemorySource {
    fn default() -> (r: Self)
        ensures
            r.wf(),
            r.id_text() == "memory"@,
            r.entries() == Seq::<EntryView>::empty(),
            r.version() == 0,
    {
        MemorySource::new()
    }
}

impl EnvSource for MemorySource {
    closed spec fn id_text(&self) -> Seq<char> {
        self.id@
    }

    open spec fn kind(&self) -> SourceType {
        SourceType::Memory
    }

    open spec fn rank(&self) -> Priority {
        Priority(30)
    }

    fn id(&self) -> (r: &SourceId) {
        &self.id
    }

    fn source_type(&self) -> (r: SourceType) {
        SourceType::Memory
    }

    fn priority(&self) -> (r: Priority) {
        Priority::MEMORY()
    }

    fn capabilities(&self) -> (r: SourceCapabilities)
        ensures
            r.spec_bits() == 35,
    {
        let rw = SourceCapabilities::READ().union(SourceCapabilities::WRITE());
        let all = rw.union(SourceCapabilities::CACHEABLE());
        assert(1u32 | 2u32 | 32u32 == 35u32) by (bit_vector);
        all
    }

    fn load(&self) -> (r: Result<SourceSnapshot, SourceError>)
        ensures
            r matches Ok(s) && variable_views(s.variables@) == entry_variables(self.entries())
                && s.version == Some(self.version()),
    {
        Ok(self.snapshot())
    }

    fn has_changed(&self) -> (r: bool)
        ensures
            r,
    {
        true
    }

    fn invalidate(&self) {
    }

}

/// Setting a key and then removing it leaves no entry for the key.
pub proof fn lemma_set_then_remove_has_no_key(
    entries: Seq<EntryView>,
    key: Seq<char>,
    value: Seq<char>,
    description: Option<Seq<char>>,
)
    requires
        keys_distinct(entries),
    ensures
        !has_key(remove_entry(set_entry(entries, key, value, description), key), key),
        !entry_variables(remove_entry(set_entry(entries, key, value, description), key)).map_values(
            |v: ParsedVariableView| v.key,
        ).contains(key),
{
    let after_set = set_entry(entries, key, value, description);
    lemma_set_entry_keeps_distinct(entries, key, value, description);
    assert(has_key(after_set, key)) by {
        if has_key(entries, key) {
            let p = key_position(entries, key);
            assert(after_set[p].0 == key);
        } else {
            assert(after_set[entries.len() as int].0 == key);
        }
    }
    let p = key_position(after_set, key);
    let after = remove_entry(after_set, key);
    assert forall|i: int| 0 <= i < after.len() implies (#[trigger] after[i]).0 != key by {
        if after[i].0 == key {
            if i == p {
                assert(after[i] == after_set.last());
                assert(after_set[after_set.len() - 1].0 == after_set[p].0);
            } else {
                assert(after[i] == after_set[i]);
                assert(after_set[i].0 == after_set[p].0);
            }
        }
    }
    let keys = entry_variables(after).map_values(|v: ParsedVariableView| v.key);
    assert forall|i: int| 0 <= i < keys.len() implies keys[i] != key by {
        assert(keys[i] == after[i].0);
    }
}

/// Setting a key keeps the keys distinct.
pub proof fn lemma_set_entry_keeps_distinct(
    entries: Seq<EntryView>,
    key: Seq<char>,
    value: Seq<char>,
    description: Option<Seq<char>>,
)
    requires
        keys_distinct(entries),
    ensures
        keys_distinct(set_entry(entries, key, value, description)),
{
    let after = set_entry(entries, key, value, description);
    if has_key(entries, key) {
        let p = key_position(entries, key);
        assert forall|i: int, j: int|
            0 <= i < after.len() && 0 <= j < after.len() && (#[trigger] after[i]).0 == (
            #[trigger] after[j]).0 implies i == j by {
            assert(after[i].0 == entries[i].0);
            assert(after[j].0 == entries[j].0);
        }
    } else {
        assert forall|i: int, j: int|
            0 <= i < after.len() && 0 <= j < after.len() && (#[trigger] after[i]).0 == (
            #[trigger] after[j]).0 implies i == j by {
            if i < entries.len() && j < entries.len() {
                assert(after[i] == entries[i]);
                assert(after[j] == entries[j]);
            } else if i < entries.len() {
                assert(after[i] == entries[i]);
            } else if j < entries.len() {
                assert(after[j] == entries[j]);
            }
        }
    }
}

} // verus!
