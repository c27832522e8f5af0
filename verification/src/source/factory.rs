//! Named factories that make sources from a configuration.

use vstd::prelude::*;
use std::sync::Arc;
use crate::error::SourceError;
use crate::source::registry::SourceConfig;
use crate::source::traits::EnvSource;
use crate::text::{lemma_position_of_first, position_of, str_eq};

verus! {

/// Makes sources of one kind from a configuration.
pub trait SourceFactory<S: EnvSource> {
    fn create(&self, config: &SourceConfig) -> Result<Arc<S>, SourceError>;

    fn source_type(&self) -> &'static str;
}

/// The names under which factories are kept, in order.
pub open spec fn factory_names<F>(named: Seq<(String, F)>) -> Seq<Seq<char>> {
    Seq::new(named.len(), |i: int| named[i].0@)
}

/// The factories that are kept, in order.
pub open spec fn factories_of<F>(named: Seq<(String, F)>) -> Seq<F> {
    Seq::new(named.len(), |i: int| named[i].1)
}

/// The factories of a registry, each under the name of the kind of source
/// that it makes.
pub struct SourceFactories<F> {
    named: Vec<(String, F)>,
}

impl<F> SourceFactories<F> {
    /// The factories with their names, in the order they were first named.
    pub closed spec fn named(&self) -> Seq<(String, F)> {
        self.named@
    }

    pub fn new() -> (r: Self)
        ensures
            r.named().len() == 0,
    {
        SourceFactories { named: Vec::new() }
    }

    /// The place of the factory that is kept under a name.
    fn find(&self, source_type: &str) -> (r: Option<usize>)
        ensures
            match r {
                Some(i) => position_of(factory_names(self.named()), source_type@) == i && i
                    < self.named().len(),
                None => position_of(factory_names(self.named()), source_type@) == -1,
            },
    {
        let ghost names = factory_names(self.named());
        let mut i: usize = 0;
        while i < self.named.len()
            invariant
                i <= self.named.len(),
                names == factory_names(self.named()),
                forall|j: int| 0 <= j < i ==> names[j] != source_type@,
            decreases self.named.len() - i,
        {
            if str_eq(self.named[i].0.as_str(), source_type) {
                proof {
                    assert(names[i as int] == source_type@);
                    lemma_position_of_first(names, source_type@, i as int);
                }
                return Some(i);
            }
            i += 1;
        }
        assert(!names.contains(source_type@));
        None
    }

    /// Keeps a factory under the name of a kind of source. A factory kept
    /// under the name before is replaced where it stands.
    pub fn register_factory(&mut self, source_type: &str, factory: F)
        ensures
            factory_names(final(self).named()) == if position_of(
                factory_names(old(self).named()),
                source_type@,
            ) >= 0 {
                factory_names(old(self).named())
            } else {
                factory_names(old(self).named()).push(source_type@)
            },
            factories_of(final(self).named()) == if position_of(
                factory_names(old(self).named()),
                source_type@,
            ) >= 0 {
                factories_of(old(self).named()).update(
                    position_of(factory_names(old(self).named()), source_type@),
                    factory,
                )
            } else {
                factories_of(old(self).named()).push(factory)
            },
    {
        let ghost names = factory_names(self.named());
        let ghost held = factories_of(self.named());
        proof {
            crate::text::lemma_position_of_range(names, source_type@);
        }
        match self.find(source_type) {
            Some(i) => {
                self.named.set(i, (source_type.to_owned(), factory));
                proof {
                    assert(names[i as int] == source_type@);
                    assert(factory_names(self.named()) =~= names);
                    assert(factories_of(self.named()) =~= held.update(i as int, factory));
                }
            },
            None => {
                self.named.push((source_type.to_owned(), factory));
                proof {
                    assert(factory_names(self.named()) =~= names.push(source_type@));
                    assert(factories_of(self.named()) =~= held.push(factory));
                }
            },
        }
    }

    /// The factory that is kept under a name.
    pub fn factory(&self, source_type: &str) -> (r: Option<&F>)
        ensures
            match r {
                Some(factory) => position_of(factory_names(self.named()), source_type@) >= 0
                    && *factory == self.named()[position_of(
                    factory_names(self.named()),
                    source_type@,
                )].1,
                None => position_of(factory_names(self.named()), source_type@) == -1,
            },
    {
        match self.find(source_type) {
            Some(i) => Some(&self.named[i].1),
            None => None,
        }
    }

    pub fn len(&self) -> (n: usize)
        ensures
            n == self.named().len(),
    {
        self.named.len()
    }
}

} // verus!
