//! Hash tables keyed by identifier triples, held in hashbrown maps.
//!
//! Verus cannot declare hashbrown's map type itself (its allocator parameter
//! is bounded by a trait of another crate), so each table is a struct of
//! ours with the map in a private field, and every operation the scheduler
//! uses is a small function whose contract restates hashbrown's documented
//! behaviour over the table's contents.
use vstd::prelude::*;
use crate::activity_identifier::IdKey;
use crate::activity_wrapper::ActivityWrapper;
use crate::event::Event;

verus! {

/// Records by key, as the contracts see an activity table.
pub type ActivityMap = Map<IdKey, ActivityWrapper>;

/// Event lists by key, as the contracts see an event table.
pub type EventMap = Map<IdKey, Seq<Event>>;

/// Activity records by identifier triple.
#[verifier::external_body]
pub struct ActivityTable {
    map: hashbrown::HashMap<IdKey, ActivityWrapper>,
}

/// The records an activity table holds, by key.
pub uninterp spec fn activity_entries(t: ActivityTable) -> ActivityMap;

impl ActivityTable {
    /// Relies on hashbrown::HashMap::new: a new map holds nothing.
    #[verifier::external_body]
    pub(crate) fn new() -> (r: ActivityTable)
        ensures
            activity_entries(r) == ActivityMap::empty(),
    {
        ActivityTable { map: hashbrown::HashMap::new() }
    }

    /// Relies on hashbrown::HashMap::insert: the key maps to the value
    /// afterwards, other keys are unchanged.
    #[verifier::external_body]
    pub(crate) fn put(&mut self, k: IdKey, v: ActivityWrapper)
        ensures
            activity_entries(*final(self)) == activity_entries(*old(self)).insert(k, v),
    {
        self.map.insert(k, v);
    }

    /// Relies on hashbrown::HashMap::remove: returns the value under the key
    /// if there was one, and removes the key.
    #[verifier::external_body]
    pub(crate) fn take(&mut self, k: &IdKey) -> (r: Option<ActivityWrapper>)
        ensures
            activity_entries(*final(self)) == activity_entries(*old(self)).remove(*k),
            r == (if activity_entries(*old(self)).contains_key(*k) {
                Some(activity_entries(*old(self))[*k])
            } else {
                None
            }),
    {
        self.map.remove(k)
    }

    /// Relies on hashbrown::HashMap::contains_key.
    #[verifier::external_body]
    pub(crate) fn has(&self, k: &IdKey) -> (r: bool)
        ensures
            r == activity_entries(*self).contains_key(*k),
    {
        self.map.contains_key(k)
    }

    /// Relies on hashbrown::HashMap::len: the number of entries.
    #[verifier::external_body]
    pub(crate) fn len(&self) -> (r: usize)
        ensures
            r == activity_entries(*self).dom().len(),
    {
        self.map.len()
    }

    /// Relies on hashbrown::HashMap::is_empty: true when no entry is present.
    #[verifier::external_body]
    pub(crate) fn is_empty(&self) -> (r: bool)
        ensures
            r == (activity_entries(*self).dom() == Set::<IdKey>::empty()),
    {
        self.map.is_empty()
    }

    /// Relies on hashbrown::HashMap::keys: every key exactly once, in an
    /// order that the map chooses.
    #[verifier::external_body]
    pub(crate) fn key_list(&self) -> (r: Vec<IdKey>)
        ensures
            r@.to_set() == activity_entries(*self).dom(),
            r@.no_duplicates(),
    {
        self.map.keys().copied().collect()
    }
}

/// Lists of events by destination triple.
#[verifier::external_body]
pub struct EventTable {
    map: hashbrown::HashMap<IdKey, Vec<Event>>,
}

/// The event lists an event table holds, by key.
pub uninterp spec fn event_lists(t: EventTable) -> EventMap;

impl EventTable {
    /// Relies on hashbrown::HashMap::new: a new map holds nothing.
    #[verifier::external_body]
    pub(crate) fn new() -> (r: EventTable)
        ensures
            event_lists(r) == EventMap::empty(),
    {
        EventTable { map: hashbrown::HashMap::new() }
    }

    /// Relies on hashbrown::HashMap::insert: the key maps to the value
    /// afterwards, other keys are unchanged.
    #[verifier::external_body]
    pub(crate) fn put(&mut self, k: IdKey, v: Vec<Event>)
        ensures
            event_lists(*final(self)) == event_lists(*old(self)).insert(k, v@),
    {
        self.map.insert(k, v);
    }

    /// Relies on hashbrown::HashMap::remove: returns the value under the key
    /// if there was one, and removes the key.
    #[verifier::external_body]
    pub(crate) fn take(&mut self, k: &IdKey) -> (r: Option<Vec<Event>>)
        ensures
            event_lists(*final(self)) == event_lists(*old(self)).remove(*k),
            event_lists(*old(self)).contains_key(*k) <==> r.is_some(),
            r.is_some() ==> r.unwrap()@ == event_lists(*old(self))[*k],
    {
        self.map.remove(k)
    }

    /// Relies on hashbrown::HashMap::contains_key.
    #[verifier::external_body]
    pub(crate) fn has(&self, k: &IdKey) -> (r: bool)
        ensures
            r == event_lists(*self).contains_key(*k),
    {
        self.map.contains_key(k)
    }

    /// Relies on hashbrown::HashMap::keys: every key exactly once, in an
    /// order that the map chooses.
    #[verifier::external_body]
    pub(crate) fn key_list(&self) -> (r: Vec<IdKey>)
        ensures
            r@.to_set() == event_lists(*self).dom(),
            r@.no_duplicates(),
    {
        self.map.keys().copied().collect()
    }

    /// Relies on hashbrown::HashMap::keys: the first key the map yields, if
    /// any; which one is the map's choice.
    #[verifier::external_body]
    pub(crate) fn any_key(&self) -> (r: Option<IdKey>)
        ensures
            r.is_some() ==> event_lists(*self).contains_key(r.unwrap()),
            r.is_none() ==> event_lists(*self).dom() == Set::<IdKey>::empty(),
    {
        self.map.keys().next().copied()
    }
}

} // verus!
