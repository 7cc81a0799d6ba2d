//! A work-stealing activity scheduler: activities are placed on workers by
//! least load, events are routed to the worker holding their destination,
//! and executors drive each activity through initialize, process and cleanup.
//!
//! Every scheduling decision is a function of the state held here; the
//! threads that run activity bodies only carry out the steps they are given.
pub mod activity;
pub mod activity_identifier;
pub mod activity_wrapper;
pub mod constellation;
pub mod constellation_config;
pub mod constellation_identifier;
pub mod context;
pub mod error;
pub mod event;
pub mod event_queue;
pub mod executor;
pub mod laws;
pub mod single_event_collector;
pub mod steal_strategy;
pub mod tables;
pub mod text;
pub mod thread_helper;
pub mod work_queue;

pub use activity::State;
pub use activity_identifier::{ActivityIdentifier, IdKey, NodeHandler};
pub use activity_wrapper::ActivityWrapper;
pub use constellation::{new_constellation, Constellation, Mode, Phase};
pub use constellation_config::ConstellationConfiguration;
pub use constellation_identifier::ConstellationIdentifier;
pub use context::{Context, ContextVec};
pub use error::ConstellationError;
pub use event::Event;
pub use event_queue::EventQueue;
pub use executor::{ExecutorQueues, Step};
pub use single_event_collector::SingleEventCollector;
pub use steal_strategy::StealStrategy;
pub use thread_helper::MultiThreadHelper;
pub use work_queue::WorkQueue;
