//! Events and their fan-out to subscribers.

use vstd::prelude::*;
use std::sync::Arc;
use crate::source::traits::SourceId;
use crate::workspace::context::WorkspaceContext;

verus! {

/// Something that changed.
#[derive(Debug)]
pub enum AbundantisEvent {
    SourceAdded { source_id: SourceId },
    SourceRemoved { source_id: SourceId },
    VariablesChanged { source_id: SourceId, added: Vec<String>, removed: Vec<String> },
    CacheInvalidated { scope: Option<WorkspaceContext> },
}

/// Whether one of the events tells that cached resolutions are stale.
pub open spec fn tells_invalidation(events: Seq<AbundantisEvent>) -> bool {
    exists|i: int| 0 <= i < events.len() && (#[trigger] events[i]) is CacheInvalidated
}

/// Whether one of the events tells that cached resolutions are stale.
pub fn any_invalidation(events: &Vec<AbundantisEvent>) -> (r: bool)
    ensures
        r == tells_invalidation(events@),
{
    let mut i: usize = 0;
    while i < events.len()
        invariant
            i <= events.len(),
            forall|j: int| 0 <= j < i ==> !((#[trigger] events@[j]) is CacheInvalidated),
        decreases events.len() - i,
    {
        match &events[i] {
            AbundantisEvent::CacheInvalidated { .. } => {
                return true;
            },
            _ => {},
        }
        i += 1;
    }
    false
}

/// A receiver of events.
pub trait EventSubscriber: Send + Sync {
    fn on_event(&self, event: &AbundantisEvent);
}

/// Hands each event to every subscriber, in the order they subscribed.
pub struct EventBus<S: EventSubscriber> {
    subscribers: Vec<Arc<S>>,
}

/// The handles of `all` at the places that `dropped` does not mark, in
/// their order.
pub open spec fn unmarked<S>(all: Seq<Arc<S>>, dropped: Seq<bool>) -> Seq<Arc<S>>
    decreases all.len(),
{
    if all.len() == 0 || dropped.len() != all.len() {
        Seq::empty()
    } else if dropped.last() {
        unmarked(all.drop_last(), dropped.drop_last())
    } else {
        unmarked(all.drop_last(), dropped.drop_last()).push(all.last())
    }
}

/// The handles at the places that are not marked, in their order.
pub fn without_marked<S>(all: &Vec<Arc<S>>, dropped: &Vec<bool>) -> (r: Vec<Arc<S>>)
    requires
        dropped@.len() == all@.len(),
    ensures
        r@ == unmarked(all@, dropped@),
{
    let mut kept: Vec<Arc<S>> = Vec::new();
    let mut i: usize = 0;
    proof {
        assert(all@.take(0) =~= Seq::<Arc<S>>::empty());
    }
    while i < all.len()
        invariant
            i <= all.len(),
            dropped@.len() == all@.len(),
            kept@ == unmarked(all@.take(i as int), dropped@.take(i as int)),
        decreases all.len() - i,
    {
        proof {
            assert(all@.take(i + 1).drop_last() =~= all@.take(i as int));
            assert(dropped@.take(i + 1).drop_last() =~= dropped@.take(i as int));
        }
        if !dropped[i] {
            kept.push(all[i].clone());
        }
        i += 1;
    }
    proof {
        assert(all@.take(all.len() as int) =~= all@);
        assert(dropped@.take(all.len() as int) =~= dropped@);
    }
    kept
}

/// Whether two handles point at one subscriber.
///
/// Wraps `Arc::ptr_eq`. The answer depends on where the subscribers lie in
/// memory, so nothing is promised of it.
#[verifier::external_body]
fn same_subscriber<S: EventSubscriber>(a: &Arc<S>, b: &Arc<S>) -> bool {
    Arc::ptr_eq(a, b)
}

impl<S: EventSubscriber> EventBus<S> {
    /// The subscribers, in the order they subscribed.
    pub closed spec fn subscribers(&self) -> Seq<Arc<S>> {
        self.subscribers@
    }

    pub fn new(_buffer_size: usize) -> (r: Self)
        ensures
            r.subscribers().len() == 0,
    {
        EventBus { subscribers: Vec::new() }
    }

    /// Calls every subscriber once with the event, first subscribed first.
    pub fn publish(&self, event: AbundantisEvent) {
        let mut i: usize = 0;
        while i < self.subscribers.len()
            invariant
                i <= self.subscribers.len(),
            decreases self.subscribers.len() - i,
        {
            self.subscribers[i].on_event(&event);
            i += 1;
        }
    }

    /// Calls every subscriber once with each of the events, event by event,
    /// first subscribed first.
    pub fn publish_all(&self, events: &Vec<AbundantisEvent>) {
        let mut e: usize = 0;
        while e < events.len()
            invariant
                e <= events.len(),
            decreases events.len() - e,
        {
            let mut i: usize = 0;
            while i < self.subscribers.len()
                invariant
                    i <= self.subscribers.len(),
                    e < events.len(),
                decreases self.subscribers.len() - i,
            {
                self.subscribers[i].on_event(&events[e]);
                i += 1;
            }
            e += 1;
        }
    }

    pub fn subscribe(&mut self, subscriber: Arc<S>)
        ensures
            final(self).subscribers() == old(self).subscribers().push(subscriber),
    {
        self.subscribers.push(subscriber);
    }

    /// Drops every handle that points at the given subscriber. The others
    /// stay, in their order. Which handles point at it is for the pointers
    /// to say.
    pub fn unsubscribe(&mut self, subscriber: &Arc<S>)
        ensures
            exists|dropped: Seq<bool>|
                dropped.len() == old(self).subscribers().len() && final(self).subscribers()
                    == #[trigger] unmarked(old(self).subscribers(), dropped),
    {
        let mut dropped: Vec<bool> = Vec::new();
        let mut i: usize = 0;
        while i < self.subscribers.len()
            invariant
                i <= self.subscribers.len(),
                dropped@.len() == i,
                self.subscribers@ == old(self).subscribers@,
            decreases self.subscribers.len() - i,
        {
            dropped.push(same_subscriber(&self.subscribers[i], subscriber));
            i += 1;
        }
        self.subscribers = without_marked(&self.subscribers, &dropped);
        proof {
            assert(self.subscribers() == unmarked(old(self).subscribers(), dropped@));
        }
    }

    pub fn subscriber_count(&self) -> (n: usize)
        ensures
            n == self.subscribers().len(),
    {
        self.subscribers.len()
    }
}

} // verus!
