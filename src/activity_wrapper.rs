//! The record the scheduler keeps for each submitted activity. The user's
//! activity body is held by whoever runs it, keyed by the identifier.
use vstd::prelude::*;
use crate::activity_identifier::ActivityIdentifier;
use crate::context::Context;

verus! {

/// An activity as the scheduler sees it: its identifier, its context and
/// its two flags.
#[derive(Debug)]
pub struct ActivityWrapper {
    pub id: ActivityIdentifier,
    pub context: Context,
    pub may_be_stolen: bool,
    pub expects_events: bool,
}

impl ActivityWrapper {
    /// Wraps a freshly identified activity.
    pub fn new(id: ActivityIdentifier, context: &Context, may_be_stolen: bool, expects_events: bool) -> (r: ActivityWrapper)
        ensures
            r.id == id,
            r.context == *context,
            r.may_be_stolen == may_be_stolen,
            r.expects_events == expects_events,
    {
        ActivityWrapper { id, context: context.clone(), may_be_stolen, expects_events }
    }

    pub fn activity_identifier(&self) -> (r: &ActivityIdentifier)
        ensures
            *r == self.id,
    {
        &self.id
    }

    pub fn expects_event(&self) -> (r: bool)
        ensures
            r == self.expects_events,
    {
        self.expects_events
    }

    pub fn may_be_stolen(&self) -> (r: bool)
        ensures
            r == self.may_be_stolen,
    {
        self.may_be_stolen
    }
}

} // verus!
