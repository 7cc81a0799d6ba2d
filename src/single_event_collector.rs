//! An activity that waits for exactly one event and keeps it.
use vstd::prelude::*;
use crate::activity::State;
use crate::event::Event;

verus! {

/// Suspends at once, and finishes as soon as an event arrives, keeping it
/// in `event`.
pub struct SingleEventCollector {
    pub event: Option<Event>,
}

impl SingleEventCollector {
    /// A collector that has seen no event.
    pub fn new() -> (r: SingleEventCollector)
        ensures
            r.event.is_none(),
    {
        SingleEventCollector { event: None }
    }

    /// The collector only waits: it always suspends.
    pub fn initialize(&mut self) -> (r: State)
        ensures
            r == State::SUSPEND,
            final(self).event == old(self).event,
    {
        State::SUSPEND
    }

    /// Keeps the event it is given; finishes when there is one and suspends
    /// otherwise.
    pub fn process(&mut self, event: Option<Event>) -> (r: State)
        ensures
            final(self).event == event,
            r == if event.is_some() {
                State::FINISH
            } else {
                State::SUSPEND
            },
    {
        let r = if event.is_some() {
            State::FINISH
        } else {
            State::SUSPEND
        };
        self.event = event;
        r
    }

    /// Nothing to release.
    pub fn cleanup(&mut self)
        ensures
            final(self).event == old(self).event,
    {
    }

    /// A copy of the event collected so far, if any.
    pub fn get_event(&self) -> (r: Option<Event>)
        ensures
            r.is_some() == self.event.is_some(),
            r.is_some() ==> r.unwrap().src_spec() == self.event.unwrap().src_spec()
                && r.unwrap().dst_spec() == self.event.unwrap().dst_spec()
                && r.unwrap().payload_spec() == self.event.unwrap().payload_spec(),
    {
        match &self.event {
            Some(e) => Some(e.clone()),
            None => None,
        }
    }
}

} // verus!
