//! One worker's state and the decisions of its executor: which activity
//! runs next, and where an activity goes after each lifecycle step.
//!
//! The executor thread itself only runs the activity bodies; every choice
//! about the queues is made here.
use vstd::prelude::*;
use crate::activity::State;
use crate::activity_identifier::{same_key, IdKey};
use crate::activity_wrapper::ActivityWrapper;
use crate::event::Event;
use crate::event_queue::{lists_nonempty, popped, queued, EventQueue};
use crate::tables::{activity_entries, ActivityMap, ActivityTable, EventMap};

verus! {

/// What the executor is to do next.
#[derive(Debug)]
pub enum Step {
    /// Run `initialize` of this fresh activity.
    Initialize(ActivityWrapper),
    /// Run `process` of this activity with this event (or none).
    Process(ActivityWrapper, Option<Event>),
    /// Run `cleanup` of this activity, then drop it.
    Cleanup(ActivityWrapper),
    /// The activity was parked in the suspended map.
    Suspended,
    /// Nothing is ready to run.
    Idle,
}

/// Every record of `m` is stored under its own identifier triple.
pub open spec fn keyed_by_id(m: ActivityMap) -> bool {
    forall|k: IdKey| #[trigger] m.contains_key(k) ==> m[k].id.id_key() == k
}

/// What `next_step` does, from the worker before (`o`) to after (`n`).
pub open spec fn next_step_post(o: ExecutorQueues, n: ExecutorQueues, r: Step) -> bool {
    match r {
        Step::Process(a, e) => {
            let k = a.id.id_key();
            &&& o.suspended().contains_key(k)
            &&& o.suspended()[k] == a
            &&& o.events().contains_key(k)
            &&& e == Some(o.events()[k][0])
            &&& n.suspended() == o.suspended().remove(k)
            &&& n.events() == popped(o.events(), k)
            &&& n.runnable() == o.runnable()
            &&& n.running() == Some(k)
        },
        Step::Initialize(a) => {
            let k = a.id.id_key();
            &&& forall|j: IdKey| #[trigger]
                o.suspended().contains_key(j) ==> !o.events().contains_key(j)
            &&& o.runnable().contains_key(k)
            &&& o.runnable()[k] == a
            &&& n.runnable() == o.runnable().remove(k)
            &&& n.suspended() == o.suspended()
            &&& n.events() == o.events()
            &&& n.running() == Some(k)
        },
        Step::Idle => {
            &&& forall|j: IdKey| #[trigger]
                o.suspended().contains_key(j) ==> !o.events().contains_key(j)
            &&& o.runnable().dom() == Set::<IdKey>::empty()
            &&& n == o
        },
        _ => false,
    }
}

/// What `after_initialize` does with activity `a` whose step returned `s`.
pub open spec fn after_initialize_post(
    o: ExecutorQueues,
    n: ExecutorQueues,
    a: ActivityWrapper,
    s: State,
    r: Step,
) -> bool {
    let k = a.id.id_key();
    &&& n.runnable() == o.runnable()
    &&& if s == State::FINISH && !a.expects_events {
        &&& r == Step::Cleanup(a)
        &&& n.suspended() == o.suspended()
        &&& n.events() == o.events()
        &&& n.running().is_none()
    } else if s == State::FINISH && o.events().contains_key(k) {
        &&& r == Step::Process(a, Some(o.events()[k][0]))
        &&& n.suspended() == o.suspended()
        &&& n.events() == popped(o.events(), k)
        &&& n.running() == Some(k)
    } else {
        &&& r == Step::Suspended
        &&& n.suspended() == o.suspended().insert(k, a)
        &&& n.events() == o.events()
        &&& n.running().is_none()
    }
}

/// What `after_process` does with activity `a` whose step returned `s`.
pub open spec fn after_process_post(
    o: ExecutorQueues,
    n: ExecutorQueues,
    a: ActivityWrapper,
    s: State,
    r: Step,
) -> bool {
    &&& n.runnable() == o.runnable()
    &&& n.events() == o.events()
    &&& n.running().is_none()
    &&& s == State::SUSPEND ==> r == Step::Suspended && n.suspended() == o.suspended().insert(
        a.id.id_key(),
        a,
    )
    &&& s == State::FINISH ==> r == Step::Cleanup(a) && n.suspended() == o.suspended()
}

/// The three collections of one worker, plus the activity its executor is
/// running, if any.
pub struct ExecutorQueues {
    activities: ActivityTable,
    activities_suspended: ActivityTable,
    event_queue: EventQueue,
    in_flight: Option<IdKey>,
}

impl ExecutorQueues {
    /// Activities ready to start, by identifier.
    pub closed spec fn runnable(self) -> ActivityMap {
        activity_entries(self.activities)
    }

    /// Activities waiting for an event, by identifier.
    pub closed spec fn suspended(self) -> ActivityMap {
        activity_entries(self.activities_suspended)
    }

    /// Events queued on this worker, by destination.
    pub closed spec fn events(self) -> EventMap {
        self.event_queue@
    }

    /// The activity taken out for execution and not yet handed back.
    pub closed spec fn running(self) -> Option<IdKey> {
        self.in_flight
    }

    /// The worker holds activity `k`: runnable, suspended or running.
    pub open spec fn holds(self, k: IdKey) -> bool {
        self.runnable().contains_key(k) || self.suspended().contains_key(k) || self.running()
            == Some(k)
    }

    /// The worker's load: runnable plus suspended activities.
    pub open spec fn load(self) -> int {
        self.runnable().dom().len() + self.suspended().dom().len() as int
    }

    /// Nothing is runnable, suspended, running or queued.
    pub open spec fn drained(self) -> bool {
        self.runnable().dom() == Set::<IdKey>::empty() && self.suspended().dom() == Set::<
            IdKey,
        >::empty() && self.events().dom() == Set::<IdKey>::empty() && self.running().is_none()
    }

    /// Each activity is in exactly one place: the runnable map, the
    /// suspended map, or running; records sit under their own identifier.
    pub open spec fn inv(self) -> bool {
        &&& lists_nonempty(self.events())
        &&& self.runnable().dom().finite()
        &&& self.suspended().dom().finite()
        &&& keyed_by_id(self.runnable())
        &&& keyed_by_id(self.suspended())
        &&& forall|k: IdKey|
            !(#[trigger] self.runnable().contains_key(k) && self.suspended().contains_key(k))
        &&& self.running().is_some() ==> !self.runnable().contains_key(self.running().unwrap())
            && !self.suspended().contains_key(self.running().unwrap())
    }

    /// An idle worker with empty collections.
    pub fn new() -> (r: ExecutorQueues)
        ensures
            r.inv(),
            r.runnable() == ActivityMap::empty(),
            r.suspended() == ActivityMap::empty(),
            r.events() == EventMap::empty(),
            r.running().is_none(),
    {
        ExecutorQueues {
            activities: ActivityTable::new(),
            activities_suspended: ActivityTable::new(),
            event_queue: EventQueue::new(),
            in_flight: None,
        }
    }

    /// The events queued on this worker.
    pub fn event_queue(&self) -> (r: &EventQueue)
        ensures
            r@ == self.events(),
    {
        &self.event_queue
    }

    /// The activity taken out for execution, if any.
    pub fn running_key(&self) -> (r: Option<IdKey>)
        ensures
            r == self.running(),
    {
        self.in_flight
    }

    /// Number of runnable plus suspended activities.
    pub fn load_count(&self) -> (r: u128)
        ensures
            r == self.load(),
    {
        self.activities.len() as u128 + self.activities_suspended.len() as u128
    }

    /// Whether activity `k` is in the runnable or the suspended map, or is
    /// running.
    pub fn has_activity(&self, k: &IdKey) -> (r: bool)
        ensures
            r == self.holds(*k),
    {
        self.activities.has(k) || self.activities_suspended.has(k) || match self.in_flight {
            Some(f) => same_key(&f, k),
            None => false,
        }
    }

    /// Places a new activity in the runnable map.
    pub fn push_runnable(&mut self, a: ActivityWrapper)
        requires
            old(self).inv(),
            !old(self).holds(a.id.id_key()),
        ensures
            final(self).inv(),
            final(self).runnable() == old(self).runnable().insert(a.id.id_key(), a),
            final(self).suspended() == old(self).suspended(),
            final(self).events() == old(self).events(),
            final(self).running() == old(self).running(),
    {
        let k = a.id.key();
        self.activities.put(k, a);
    }

    /// Queues `e` for destination `k` on this worker.
    pub fn push_event(&mut self, k: IdKey, e: Event)
        requires
            old(self).inv(),
        ensures
            final(self).inv(),
            final(self).events() == old(self).events().insert(k, queued(old(self).events(), k).push(e)),
            final(self).runnable() == old(self).runnable(),
            final(self).suspended() == old(self).suspended(),
            final(self).running() == old(self).running(),
    {
        self.event_queue.insert(k, e);
    }

    /// Queues the events `es`, in order, for destination `k`.
    pub fn push_events(&mut self, k: IdKey, es: Vec<Event>)
        requires
            old(self).inv(),
        ensures
            final(self).inv(),
            queued(final(self).events(), k) == queued(old(self).events(), k) + es@,
            forall|j: IdKey| j != k ==> queued(final(self).events(), j) == queued(old(self).events(), j),
            es@.len() == 0 ==> final(self).events() == old(self).events(),
            final(self).runnable() == old(self).runnable(),
            final(self).suspended() == old(self).suspended(),
            final(self).running() == old(self).running(),
    {
        let mut es = es;
        let ghost all = es@;
        let mut i: usize = 0;
        let n = es.len();
        while es.len() > 0
            invariant
                self.inv(),
                i <= n,
                n == all.len(),
                es@ == all.skip(i as int),
                queued(self.events(), k) == queued(old(self).events(), k) + all.take(i as int),
                forall|j: IdKey| j != k ==> queued(self.events(), j) == queued(old(self).events(), j),
                i == 0 ==> self.events() == old(self).events(),
                self.runnable() == old(self).runnable(),
                self.suspended() == old(self).suspended(),
                self.running() == old(self).running(),
            decreases es.len(),
        {
            let e = es.remove(0);
            self.event_queue.insert(k, e);
            assert(all.take(i + 1) =~= all.take(i as int).push(all[i as int]));
            assert(es@ =~= all.skip(i + 1));
            i = i + 1;
        }
        assert(all.take(n as int) =~= all);
    }

    /// Chooses what the executor runs next. An activity that is suspended
    /// and has an event queued comes first, with its oldest event; otherwise
    /// a runnable activity starts; otherwise the worker is idle. The chosen
    /// activity is marked as running until it is handed back.
    pub fn next_step(&mut self) -> (r: Step)
        requires
            old(self).inv(),
            old(self).running().is_none(),
        ensures
            final(self).inv(),
            next_step_post(*old(self), *final(self), r),
    {
        let keys = self.activities_suspended.key_list();
        let mut i: usize = 0;
        while i < keys.len()
            invariant
                self.inv(),
                *self == *old(self),
                i <= keys@.len(),
                keys@.to_set() == self.suspended().dom(),
                forall|t: int| 0 <= t < i ==> !self.events().contains_key(#[trigger] keys@[t]),
            decreases keys.len() - i,
        {
            let k = keys[i];
            assert(keys@.to_set().contains(keys@[i as int]));
            if self.event_queue.contains_key(&k) {
                let a = self.activities_suspended.take(&k).unwrap();
                let e = self.event_queue.remove(k);
                self.in_flight = Some(k);
                return Step::Process(a, e);
            }
            i = i + 1;
        }
        assert forall|j: IdKey| #[trigger]
            old(self).suspended().contains_key(j) implies !old(self).events().contains_key(j) by {
            assert(keys@.to_set().contains(j));
        }
        let run = self.activities.key_list();
        if run.len() > 0 {
            let k = run[0];
            assert(run@.to_set().contains(run@[0]));
            let a = self.activities.take(&k).unwrap();
            self.in_flight = Some(k);
            Step::Initialize(a)
        } else {
            assert(run@.to_set() =~= Set::<IdKey>::empty());
            Step::Idle
        }
    }

    /// Where an activity goes after its `initialize` step returned `s`.
    /// Suspending parks it. Finishing leads, for an activity that expects
    /// events, to `process` with its oldest queued event, or to the
    /// suspended map when none is queued; for any other activity, to
    /// cleanup.
    pub fn after_initialize(&mut self, a: ActivityWrapper, s: State) -> (r: Step)
        requires
            old(self).inv(),
            old(self).running() == Some(a.id.id_key()),
        ensures
            final(self).inv(),
            after_initialize_post(*old(self), *final(self), a, s, r),
    {
        let k = a.id.key();
        match s {
            State::SUSPEND => {
                self.activities_suspended.put(k, a);
                self.in_flight = None;
                Step::Suspended
            },
            State::FINISH => {
                if !a.expects_events {
                    self.in_flight = None;
                    Step::Cleanup(a)
                } else if self.event_queue.contains_key(&k) {
                    let e = self.event_queue.remove(k);
                    Step::Process(a, e)
                } else {
                    self.activities_suspended.put(k, a);
                    self.in_flight = None;
                    Step::Suspended
                }
            },
        }
    }

    /// Where an activity goes after its `process` step returned `s`:
    /// suspending parks it until an event arrives, finishing leads to
    /// cleanup.
    pub fn after_process(&mut self, a: ActivityWrapper, s: State) -> (r: Step)
        requires
            old(self).inv(),
            old(self).running() == Some(a.id.id_key()),
        ensures
            final(self).inv(),
            after_process_post(*old(self), *final(self), a, s, r),
    {
        self.in_flight = None;
        match s {
            State::SUSPEND => {
                let k = a.id.key();
                self.activities_suspended.put(k, a);
                Step::Suspended
            },
            State::FINISH => Step::Cleanup(a),
        }
    }

    /// Whether the runnable, suspended and event collections are all empty
    /// and nothing is running.
    pub fn queues_empty(&self) -> (r: bool)
        requires
            self.inv(),
        ensures
            r == self.drained(),
    {
        self.activities.is_empty() && self.activities_suspended.is_empty()
            && self.event_queue.is_empty() && self.in_flight.is_none()
    }
}

} // verus!
