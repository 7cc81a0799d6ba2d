//! The facade a program uses: activation, submission, sending and graceful
//! shutdown, with the lifecycle inactive, active, shutting down, terminated.
use vstd::prelude::*;
use crate::activity_identifier::ActivityIdentifier;
use crate::activity_wrapper::ActivityWrapper;
use crate::constellation_config::ConstellationConfiguration;
use crate::constellation_identifier::ConstellationIdentifier;
use crate::context::Context;
use crate::error::ConstellationError;
use crate::event::Event;
use crate::tables::EventMap;
use crate::thread_helper::MultiThreadHelper;

verus! {

/// Which kind of constellation to build.
#[derive(Clone, Copy, Debug, PartialEq, Eq, Structural)]
pub enum Mode {
    /// One worker; events sent by an activity stay on it.
    SingleThreaded,
    /// `number_of_threads` workers behind the coordinator.
    MultiThreaded,
    /// Several nodes; needs an inter-node transport.
    Distributed,
}

/// Where a facade is in its lifecycle.
#[derive(Clone, Copy, Debug, PartialEq, Eq, Structural)]
pub enum Phase {
    Inactive,
    Active,
    ShuttingDown,
    Terminated,
}

/// A constellation instance as its user sees it.
pub struct Constellation {
    phase: Phase,
    master: bool,
    nodes: i32,
    helper: MultiThreadHelper,
}

impl Constellation {
    /// The lifecycle phase.
    pub closed spec fn phase(self) -> Phase {
        self.phase
    }

    /// The coordinator with all workers.
    pub closed spec fn coordinator(self) -> MultiThreadHelper {
        self.helper
    }

    /// The declared number of nodes.
    pub closed spec fn node_count(self) -> i32 {
        self.nodes
    }

    /// What `activate` was told about mastership.
    pub closed spec fn master_flag(self) -> bool {
        self.master
    }

    /// The facade's invariant is the coordinator's.
    pub open spec fn inv(self) -> bool {
        self.coordinator().inv()
    }

    /// The current lifecycle phase.
    pub fn current_phase(&self) -> (r: Phase)
        ensures
            r == self.phase(),
    {
        self.phase
    }

    /// Marks the facade active. `is_master` is what the transport reports
    /// for this process, and is returned. Fails unless inactive.
    pub fn activate(&mut self, is_master: bool) -> (r: Result<bool, ConstellationError>)
        ensures
            old(self).phase() == Phase::Inactive ==> r == Ok::<bool, ConstellationError>(is_master)
                && final(self).phase() == Phase::Active && final(self).master_flag() == is_master,
            old(self).phase() != Phase::Inactive ==> r == Err::<bool, ConstellationError>(
                ConstellationError::StateError,
            ) && final(self).phase() == old(self).phase() && final(self).master_flag()
                == old(self).master_flag(),
            final(self).coordinator() == old(self).coordinator(),
            final(self).node_count() == old(self).node_count(),
    {
        if self.phase != Phase::Inactive {
            return Err(ConstellationError::StateError);
        }
        self.phase = Phase::Active;
        self.master = is_master;
        Ok(is_master)
    }

    /// Submits an activity: it gets the next identifier and is queued for
    /// placement on the least loaded worker. Fails with `StateError` unless
    /// active, and with `InternalInvariant` once identifiers are exhausted.
    pub fn submit(&mut self, context: &Context, may_be_stolen: bool, expects_events: bool) -> (r: Result<ActivityIdentifier, ConstellationError>)
        requires
            old(self).inv(),
        ensures
            final(self).inv(),
            final(self).phase() == old(self).phase(),
            final(self).node_count() == old(self).node_count(),
            final(self).master_flag() == old(self).master_flag(),
            old(self).phase() != Phase::Active ==> r == Err::<ActivityIdentifier, ConstellationError>(
                ConstellationError::StateError,
            ) && final(self).coordinator() == old(self).coordinator(),
            old(self).phase() == Phase::Active && old(self).coordinator().id_source().counter() == u64::MAX
                ==> r == Err::<ActivityIdentifier, ConstellationError>(ConstellationError::InternalInvariant)
                && final(self).coordinator() == old(self).coordinator(),
            old(self).phase() == Phase::Active && old(self).coordinator().id_source().counter() < u64::MAX
                ==> r.is_ok() && {
                let id = r.unwrap();
                let o = old(self).coordinator();
                let n = final(self).coordinator();
                &&& id.constellation_id == o.id_source().constellation_id
                &&& id.node_info == o.id_source().node_info
                &&& id.activity_id == o.id_source().counter()
                &&& n.id_source().counter() == o.id_source().counter() + 1
                &&& n.pending_activities() == o.pending_activities().push(
                    (ActivityWrapper { id, context: *context, may_be_stolen, expects_events }),
                )
                &&& n.workers() == o.workers()
                &&& n.pending_events() == o.pending_events()
                &&& n.waiting() == o.waiting()
            },
    {
        if self.phase != Phase::Active {
            return Err(ConstellationError::StateError);
        }
        if !self.helper.can_submit() {
            return Err(ConstellationError::InternalInvariant);
        }
        Ok(self.helper.submit(context, may_be_stolen, expects_events))
    }

    /// Sends an event; it is routed by the coordinator's next round. Fails
    /// with `StateError` unless active.
    pub fn send(&mut self, e: Event) -> (r: Result<(), ConstellationError>)
        requires
            old(self).inv(),
        ensures
            final(self).inv(),
            final(self).phase() == old(self).phase(),
            final(self).node_count() == old(self).node_count(),
            final(self).master_flag() == old(self).master_flag(),
            old(self).phase() != Phase::Active ==> r == Err::<(), ConstellationError>(
                ConstellationError::StateError,
            ) && final(self).coordinator() == old(self).coordinator(),
            old(self).phase() == Phase::Active ==> r == Ok::<(), ConstellationError>(())
                && final(self).coordinator().pending_events() == old(self).coordinator().pending_events().push(e)
                && final(self).coordinator().workers() == old(self).coordinator().workers()
                && final(self).coordinator().pending_activities() == old(self).coordinator().pending_activities()
                && final(self).coordinator().waiting() == old(self).coordinator().waiting(),
    {
        if self.phase != Phase::Active {
            return Err(ConstellationError::StateError);
        }
        self.helper.send(e);
        Ok(())
    }

    /// Attempts a graceful shutdown. When every worker is drained and no
    /// submission or event awaits the coordinator, the facade terminates
    /// and `Ok(true)` is returned; otherwise it is shutting down and
    /// `Ok(false)` is returned, and the caller may retry. Fails with
    /// `StateError` when neither active nor shutting down.
    pub fn done(&mut self) -> (r: Result<bool, ConstellationError>)
        requires
            old(self).inv(),
        ensures
            final(self).inv(),
            final(self).coordinator() == old(self).coordinator(),
            final(self).node_count() == old(self).node_count(),
            final(self).master_flag() == old(self).master_flag(),
            ({
                let c = old(self).coordinator();
                let drained = c.pending_activities().len() == 0 && c.pending_events().len() == 0
                    && forall|i: int| 0 <= i < c.workers().len() ==> (#[trigger] c.workers()[i]).drained();
                if old(self).phase() == Phase::Active || old(self).phase() == Phase::ShuttingDown {
                    &&& r == Ok::<bool, ConstellationError>(drained)
                    &&& final(self).phase() == if drained {
                        Phase::Terminated
                    } else {
                        Phase::ShuttingDown
                    }
                } else {
                    &&& r == Err::<bool, ConstellationError>(ConstellationError::StateError)
                    &&& final(self).phase() == old(self).phase()
                }
            }),
    {
        if self.phase != Phase::Active && self.phase != Phase::ShuttingDown {
            return Err(ConstellationError::StateError);
        }
        let drained = self.helper.done();
        if drained {
            self.phase = Phase::Terminated;
        } else {
            self.phase = Phase::ShuttingDown;
        }
        Ok(drained)
    }

    /// Whether this process is the master. Fails unless activated.
    pub fn is_master(&self) -> (r: Result<bool, ConstellationError>)
        ensures
            self.phase() == Phase::Inactive ==> r == Err::<bool, ConstellationError>(
                ConstellationError::StateError,
            ),
            self.phase() != Phase::Inactive ==> r == Ok::<bool, ConstellationError>(self.master_flag()),
    {
        if self.phase == Phase::Inactive {
            Err(ConstellationError::StateError)
        } else {
            Ok(self.master)
        }
    }

    /// The declared number of nodes.
    pub fn nodes(&self) -> (r: i32)
        ensures
            r == self.node_count(),
    {
        self.nodes
    }

    /// The identity of this constellation on this node.
    pub fn identifier(&self) -> (r: ConstellationIdentifier)
        ensures
            r == self.coordinator().id_source(),
    {
        self.helper.identifier()
    }

    /// The coordinator, to inspect.
    pub fn coordinator_ref(&self) -> (r: &MultiThreadHelper)
        ensures
            *r == self.coordinator(),
    {
        &self.helper
    }

    /// The coordinator, for the threads that drive it: the executors and the
    /// coordinator's own loop.
    pub fn coordinator_mut(&mut self) -> (r: &mut MultiThreadHelper)
        ensures
            *r == old(self).coordinator(),
            final(self).coordinator() == *final(r),
            final(self).phase() == old(self).phase(),
            final(self).node_count() == old(self).node_count(),
            final(self).master_flag() == old(self).master_flag(),
    {
        &mut self.helper
    }
}

/// Builds an inactive constellation for `mode`. A single threaded one has
/// one worker; a multi threaded one has `number_of_threads` workers. A
/// distributed one needs an inter-node transport, which is not available:
/// `TransportError`.
pub fn new_constellation(mode: Mode, config: &ConstellationConfiguration, const_id: ConstellationIdentifier) -> (r: Result<Constellation, ConstellationError>)
    requires
        mode == Mode::MultiThreaded ==> config.number_of_threads >= 1,
    ensures
        mode == Mode::Distributed ==> r == Err::<Constellation, ConstellationError>(ConstellationError::TransportError),
        mode != Mode::Distributed ==> r.is_ok() && {
            let c = r.unwrap();
            let h = c.coordinator();
            &&& c.inv()
            &&& c.phase() == Phase::Inactive
            &&& c.node_count() == config.number_of_nodes
            &&& h.workers().len() == if mode == Mode::SingleThreaded {
                1
            } else {
                config.number_of_threads as int
            }
            &&& forall|i: int| 0 <= i < h.workers().len() ==> (#[trigger] h.workers()[i]).drained()
            &&& h.pending_activities().len() == 0
            &&& h.pending_events().len() == 0
            &&& h.waiting() == EventMap::empty()
            &&& h.id_source() == const_id
            &&& h.is_single() == (mode == Mode::SingleThreaded)
        },
{
    let workers: usize = match mode {
        Mode::SingleThreaded => 1,
        Mode::MultiThreaded => config.number_of_threads as usize,
        Mode::Distributed => {
            return Err(ConstellationError::TransportError);
        },
    };
    let helper = MultiThreadHelper::new(const_id, workers, mode == Mode::SingleThreaded);
    Ok(Constellation { phase: Phase::Inactive, master: false, nodes: config.number_of_nodes, helper })
}

} // verus!
