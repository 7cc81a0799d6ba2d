//! Settings of a constellation instance.
use vstd::prelude::*;
use crate::context::ContextVec;
use crate::steal_strategy::StealStrategy;

verus! {

/// How a constellation is set up.
///
/// `number_of_threads` is the number of workers on this node and
/// `number_of_nodes` the declared cluster size; `time_between_steals` is
/// the idle wait of the coordinator and the executors, in microseconds.
pub struct ConstellationConfiguration {
    pub local_steal_strategy: StealStrategy,
    pub remote_steal_strategy: StealStrategy,
    pub number_of_nodes: i32,
    pub number_of_threads: i32,
    pub debug: bool,
    pub context_vec: ContextVec,
    pub time_between_steals: u64,
}

impl ConstellationConfiguration {
    /// A configuration with every setting given.
    pub fn new(
        lss: StealStrategy,
        rss: StealStrategy,
        nodes: i32,
        threads: i32,
        debug: bool,
        context_vec: ContextVec,
        time_between_steals: u64,
    ) -> (r: Box<ConstellationConfiguration>)
        ensures
            r.local_steal_strategy == lss,
            r.remote_steal_strategy == rss,
            r.number_of_nodes == nodes,
            r.number_of_threads == threads,
            r.debug == debug,
            r.context_vec@ == context_vec@,
            r.time_between_steals == time_between_steals,
    {
        Box::new(
            ConstellationConfiguration {
                local_steal_strategy: lss,
                remote_steal_strategy: rss,
                number_of_nodes: nodes,
                number_of_threads: threads,
                debug,
                context_vec,
                time_between_steals,
            },
        )
    }

    /// A configuration with a single worker.
    pub fn new_single_threaded(
        lss: StealStrategy,
        rss: StealStrategy,
        nodes: i32,
        debug: bool,
        context_vec: ContextVec,
        time_between_steals: u64,
    ) -> (r: Box<ConstellationConfiguration>)
        ensures
            r.local_steal_strategy == lss,
            r.remote_steal_strategy == rss,
            r.number_of_nodes == nodes,
            r.number_of_threads == 1,
            r.debug == debug,
            r.context_vec@ == context_vec@,
            r.time_between_steals == time_between_steals,
    {
        ConstellationConfiguration::new(lss, rss, nodes, 1, debug, context_vec, time_between_steals)
    }
}

} // verus!
