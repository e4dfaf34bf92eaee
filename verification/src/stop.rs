//! Stops: what a type must say to be one, and the container in which the bus
//! holds an instance together with its table.

use crate::dyn_var::{same_type, DynVar};
use crate::event::{count_matches, EventRegister, HandlerEntry};
use std::any::TypeId;
use std::fmt::Debug;
use vstd::prelude::*;

verus! {

/// A component that handles events. Its one duty is to say which: it attaches
/// to the table it is given one entry for each event that it answers, with
/// the handler of type `H` that runs for it. The answer depends on the type
/// alone and must be the same at every call.
pub trait BusStop<H>: Sized {
    fn registered_handlers(h: EventRegister<Self, H>) -> EventRegister<Self, H>;
}

/// The position of the first entry that answers `id`, or the length of the
/// table where none does.
pub open spec fn first_match<H>(entries: Seq<HandlerEntry<H>>, id: TypeId) -> int
    decreases entries.len(),
{
    if entries.len() == 0 {
        0
    } else if entries.first().event == id {
        0
    } else {
        1 + first_match(entries.drop_first(), id)
    }
}

/// One stop as the bus holds it: the instance, hidden in a `DynVar`, and the
/// table of the events that it answers.
pub struct BusStopContainer<H> {
    pub inner: DynVar,
    pub handlers: Vec<HandlerEntry<H>>,
}

impl<H> BusStopContainer<H> {
    pub open spec fn claims(&self, id: TypeId) -> nat {
        count_matches(self.handlers@, id)
    }

    /// Wraps an instance together with the table that its type answers for.
    pub fn new<T: BusStop<H> + Debug + Send + Sync + 'static>(stop: T) -> (r: Self)
        ensures
            r.inner.holds(stop),
            r.inner.snapshot() is Some,
    {
        let table = T::registered_handlers(EventRegister::new());
        BusStopContainer { inner: DynVar::new_debug(stop), handlers: table.handlers }
    }

    /// How many entries of the table answer the event.
    pub fn matches(&self, event_tag_id: &TypeId) -> (n: usize)
        ensures
            n == self.claims(*event_tag_id),
    {
        let mut n: usize = 0;
        let mut i: usize = 0;
        while i < self.handlers.len()
            invariant
                i <= self.handlers.len(),
                n <= i,
                n == count_matches(self.handlers@.subrange(0, i as int), *event_tag_id),
            decreases self.handlers.len() - i,
        {
            assert(self.handlers@.subrange(0, i + 1).drop_last() =~= self.handlers@.subrange(
                0,
                i as int,
            ));
            if same_type(&self.handlers[i].event, event_tag_id) {
                n = n + 1;
            }
            i = i + 1;
        }
        assert(self.handlers@.subrange(0, i as int) =~= self.handlers@);
        n
    }

    /// Whether this stop handles the event.
    pub fn relevant(&self, event_tag_id: &TypeId) -> (r: bool)
        requires
            self.claims(*event_tag_id) <= 1,
        ensures
            r == (self.claims(*event_tag_id) == 1),
    {
        self.matches(event_tag_id) == 1
    }

    /// The handler that runs for the event.
    pub fn handler_for(&self, event_tag_id: &TypeId) -> (r: Option<&H>)
        ensures
            match r {
                None => self.claims(*event_tag_id) == 0,
                Some(h) => {
                    let k = first_match(self.handlers@, *event_tag_id);
                    &&& self.claims(*event_tag_id) >= 1
                    &&& 0 <= k < self.handlers@.len()
                    &&& self.handlers@[k].event == *event_tag_id
                    &&& *h == self.handlers@[k].handler
                },
            },
    {
        let mut i: usize = 0;
        while i < self.handlers.len()
            invariant
                i <= self.handlers.len(),
                forall|j: int| 0 <= j < i ==> (#[trigger] self.handlers@[j]).event != *event_tag_id,
            decreases self.handlers.len() - i,
        {
            if same_type(&self.handlers[i].event, event_tag_id) {
                proof {
                    lemma_first_match(self.handlers@, *event_tag_id, i as int);
                    lemma_count_found(self.handlers@, *event_tag_id, i as int);
                }
                return Some(&self.handlers[i].handler);
            }
            i = i + 1;
        }
        proof {
            lemma_count_none(self.handlers@, *event_tag_id);
        }
        None
    }

    /// The text that the instance showed when it was registered.
    pub fn debug(&self) -> (r: String)
        ensures
            r@ == self.inner.snapshot_text(),
    {
        self.inner.debug_snapshot()
    }
}


/// The first entry that answers an event is found by passing over those that do not.
pub proof fn lemma_first_match<H>(entries: Seq<HandlerEntry<H>>, id: TypeId, i: int)
    requires
        0 <= i < entries.len(),
        forall|j: int| 0 <= j < i ==> (#[trigger] entries[j]).event != id,
        entries[i].event == id,
    ensures
        first_match(entries, id) == i,
    decreases entries.len(),
{
    if i > 0 {
        assert(entries[0].event != id);
        let rest = entries.drop_first();
        assert forall|j: int| 0 <= j < i - 1 implies (#[trigger] rest[j]).event != id by {
            assert(rest[j] == entries[j + 1]);
        }
        assert(rest[i - 1] == entries[i]);
        lemma_first_match(rest, id, i - 1);
    }
}

/// A table with an entry that answers an event claims it at least once.
pub proof fn lemma_count_found<H>(entries: Seq<HandlerEntry<H>>, id: TypeId, i: int)
    requires
        0 <= i < entries.len(),
        entries[i].event == id,
    ensures
        count_matches(entries, id) >= 1,
    decreases entries.len(),
{
    if i < entries.len() - 1 {
        lemma_count_found(entries.drop_last(), id, i);
    }
}

/// A table without an entry that answers an event does not claim it.
pub proof fn lemma_count_none<H>(entries: Seq<HandlerEntry<H>>, id: TypeId)
    requires
        forall|j: int| 0 <= j < entries.len() ==> (#[trigger] entries[j]).event != id,
    ensures
        count_matches(entries, id) == 0,
    decreases entries.len(),
{
    if entries.len() > 0 {
        let rest = entries.drop_last();
        assert forall|j: int| 0 <= j < rest.len() implies (#[trigger] rest[j]).event != id by {
            assert(rest[j] == entries[j]);
        }
        lemma_count_none(rest, id);
        assert(entries.last() == entries[entries.len() - 1]);
    }
}

} // verus!
