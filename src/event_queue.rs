//! Per-worker event queue: for each destination, the events addressed to it
//! in the order they were queued.
use vstd::prelude::*;
use crate::activity_identifier::IdKey;
use crate::event::Event;
use crate::tables::{event_lists, EventMap, EventTable};

verus! {

/// The events queued for `k` in `m`, oldest first (empty when none are).
pub open spec fn queued(m: EventMap, k: IdKey) -> Seq<Event> {
    if m.contains_key(k) {
        m[k]
    } else {
        Seq::empty()
    }
}

/// `m` after `e` is appended to the list of `k`.
pub open spec fn pushed(m: EventMap, k: IdKey, e: Event) -> EventMap {
    m.insert(k, queued(m, k).push(e))
}

/// `m` after the oldest event of `k` is taken; a list that becomes empty
/// leaves the map.
pub open spec fn popped(m: EventMap, k: IdKey) -> EventMap {
    if queued(m, k).len() <= 1 {
        m.remove(k)
    } else {
        m.insert(k, m[k].drop_first())
    }
}

/// No destination is present with an empty list.
pub open spec fn lists_nonempty(m: EventMap) -> bool {
    forall|k: IdKey| #[trigger] m.contains_key(k) ==> m[k].len() > 0
}

/// Every queued event sits in the list of its own destination.
pub open spec fn keyed_by_dst(m: EventMap) -> bool {
    forall|k: IdKey, i: int|
        #![trigger m[k][i]]
        m.contains_key(k) && 0 <= i < m[k].len() ==> m[k][i].dst_spec().id_key() == k
}

/// Events by destination, first in first out for each destination. No
/// order is kept between different destinations.
pub struct EventQueue {
    data: EventTable,
}

impl View for EventQueue {
    type V = EventMap;

    closed spec fn view(&self) -> EventMap {
        event_lists(self.data)
    }
}

impl EventQueue {
    /// The queue's invariant: destinations with no events are not present.
    pub open spec fn inv(&self) -> bool {
        lists_nonempty(self@)
    }

    pub fn new() -> (r: EventQueue)
        ensures
            r.inv(),
            r@ == EventMap::empty(),
    {
        EventQueue { data: EventTable::new() }
    }

    /// Appends `event` to the list of destination `key`, creating the list if
    /// absent.
    pub fn insert(&mut self, key: IdKey, event: Event)
        requires
            old(self).inv(),
        ensures
            final(self).inv(),
            final(self)@ == pushed(old(self)@, key, event),
    {
        let list = self.data.take(&key);
        let mut v = match list {
            Some(v) => v,
            None => Vec::new(),
        };
        v.push(event);
        self.data.put(key, v);
        assert(final(self)@ =~= pushed(old(self)@, key, event));
    }

    /// Removes and returns the oldest event for `key`; the destination leaves
    /// the queue when its last event is taken.
    pub fn remove(&mut self, key: IdKey) -> (r: Option<Event>)
        requires
            old(self).inv(),
        ensures
            final(self).inv(),
            r == (if old(self)@.contains_key(key) {
                Some(old(self)@[key][0])
            } else {
                None::<Event>
            }),
            final(self)@ == popped(old(self)@, key),
    {
        match self.data.take(&key) {
            None => {
                assert(final(self)@ =~= popped(old(self)@, key));
                None
            },
            Some(mut v) => {
                let e = v.remove(0);
                if v.len() > 0 {
                    self.data.put(key, v);
                }
                assert(final(self)@ =~= popped(old(self)@, key));
                Some(e)
            },
        }
    }

    /// Removes and returns every event queued for `key`, oldest first.
    pub fn remove_all(&mut self, key: IdKey) -> (r: Vec<Event>)
        requires
            old(self).inv(),
        ensures
            final(self).inv(),
            r@ == queued(old(self)@, key),
            final(self)@ == old(self)@.remove(key),
    {
        match self.data.take(&key) {
            Some(v) => v,
            None => Vec::new(),
        }
    }

    /// Whether any event is queued for `key`.
    pub fn contains_key(&self, key: &IdKey) -> (r: bool)
        requires
            self.inv(),
        ensures
            r == (queued(self@, *key).len() > 0),
    {
        self.data.has(key)
    }

    /// Whether no event is queued at all.
    pub fn is_empty(&self) -> (r: bool)
        ensures
            r == (self@.dom() == Set::<IdKey>::empty()),
    {
        self.data.any_key().is_none()
    }

    /// Every destination with queued events, once each, in no particular
    /// order.
    pub fn keys(&self) -> (r: Vec<IdKey>)
        ensures
            r@.to_set() == self@.dom(),
            r@.no_duplicates(),
    {
        self.data.key_list()
    }

    /// Some destination with queued events, if there is one; which one is
    /// left open.
    pub fn first_key(&self) -> (r: Option<IdKey>)
        ensures
            r.is_some() ==> self@.contains_key(r.unwrap()),
            r.is_none() ==> self@.dom() == Set::<IdKey>::empty(),
    {
        self.data.any_key()
    }
}

} // verus!
