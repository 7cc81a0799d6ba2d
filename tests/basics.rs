use constellation_rust::activity_identifier::{same_key, ActivityIdentifierTrait};
use constellation_rust::{
    ActivityIdentifier, ConstellationConfiguration, ConstellationError, ConstellationIdentifier, Context,
    ContextVec, Event, EventQueue, ExecutorQueues, NodeHandler, SingleEventCollector, State, Step,
    StealStrategy, WorkQueue,
};
use constellation_rust::ActivityWrapper;

fn node(id: usize) -> NodeHandler {
    NodeHandler { node_name: "node".to_string(), node_id: id }
}

fn aid(n: u64) -> ActivityIdentifier {
    ActivityIdentifier { constellation_id: 0, node_info: node(0), activity_id: n }
}

fn event(payload: &str, src: u64, dst: u64) -> Event {
    *Event::new(payload.as_bytes().to_vec(), aid(src), aid(dst))
}

fn ctx(label: &str) -> Context {
    Context { label: label.to_string() }
}

#[test]
fn identifiers_count_up_from_zero() {
    let mut c = ConstellationIdentifier::new_empty();
    assert_eq!(c.node_info.node_name, "EMPTY");
    assert_eq!(c.generate_activity_id(), 0);
    assert_eq!(c.generate_activity_id(), 1);
    let a = ActivityIdentifier::new(&mut c);
    let b = ActivityIdentifier::new(&mut c);
    assert_eq!(a.activity_id, 2);
    assert_eq!(b.activity_id, 3);
    assert_ne!(a, b);
    assert_eq!(a.key(), (0, 0, 2));
}

#[test]
fn identifier_equality_ignores_node_name() {
    let a = ActivityIdentifier { constellation_id: 1, node_info: node(2), activity_id: 3 };
    let b = ActivityIdentifier {
        constellation_id: 1,
        node_info: NodeHandler { node_name: "other".to_string(), node_id: 2 },
        activity_id: 3,
    };
    let c = ActivityIdentifier { constellation_id: 1, node_info: node(4), activity_id: 3 };
    assert_eq!(a, b);
    assert_ne!(a, c);
    assert!(same_key(&a.key(), &b.key()));
    assert!(!same_key(&a.key(), &c.key()));
}

#[test]
fn exhausted_counter_is_reported() {
    let mut c = ConstellationIdentifier::new(3, node(1), 0);
    assert!(c.can_generate());
    c.activity_counter = u64::MAX;
    assert!(!c.can_generate());
}

#[test]
fn event_getters_return_what_was_given() {
    let e = event("Hello World", 1, 2);
    assert_eq!(e.get_payload(), &b"Hello World".to_vec());
    assert_eq!(e.get_src(), aid(1));
    assert_eq!(e.get_dst(), aid(2));
    assert_eq!(e.dst_key(), (0, 0, 2));
}

#[test]
fn event_queue_is_first_in_first_out_per_destination() {
    let mut q = EventQueue::new();
    assert!(q.is_empty());
    q.insert((0, 0, 7), event("a1", 1, 7));
    q.insert((0, 0, 8), event("b", 2, 8));
    q.insert((0, 0, 7), event("a2", 1, 7));
    assert!(q.contains_key(&(0, 0, 7)));
    assert!(!q.contains_key(&(0, 0, 9)));
    assert_eq!(q.remove((0, 0, 7)).unwrap().get_payload(), &b"a1".to_vec());
    assert_eq!(q.remove((0, 0, 7)).unwrap().get_payload(), &b"a2".to_vec());
    assert!(q.remove((0, 0, 7)).is_none());
    assert!(!q.contains_key(&(0, 0, 7)));
    assert!(!q.is_empty());
    assert_eq!(q.first_key(), Some((0, 0, 8)));
    let all = q.remove_all((0, 0, 8));
    assert_eq!(all.len(), 1);
    assert!(q.is_empty());
    assert_eq!(q.first_key(), None);
}

#[test]
fn context_vec_append_contains_remove() {
    let mut v = ContextVec::new();
    assert!(!v.contains(&ctx("a")));
    v.append(&ctx("a"));
    v.append(&ctx("b"));
    v.append(&ctx("a"));
    assert!(v.contains(&ctx("a")));
    assert!(v.contains(&ctx("b")));
    v.remove(&ctx("a"));
    assert!(!v.contains(&ctx("a")));
    assert_eq!(v.context_vec.len(), 1);
    assert_eq!(v.context_vec[0].label, "b");
    assert!(ctx("x") == ctx("x"));
    assert!(ctx("x") != ctx("y"));
}

#[test]
fn work_queue_both_ends() {
    let mut q: WorkQueue<u32> = WorkQueue::new();
    q.pop_front();
    q.pop_back();
    assert_eq!(q.len(), 0);
    q.push_back(1);
    q.push_back(2);
    q.push_front(0);
    assert_eq!(q.len(), 3);
    q.pop_front();
    q.pop_back();
    assert_eq!(q.len(), 1);
}

#[test]
fn single_threaded_configuration_has_one_worker() {
    let c = ConstellationConfiguration::new_single_threaded(
        StealStrategy::SMALLEST,
        StealStrategy::BIGGEST,
        2,
        false,
        ContextVec::new(),
        100,
    );
    assert_eq!(c.number_of_threads, 1);
    assert_eq!(c.number_of_nodes, 2);
    assert_eq!(c.time_between_steals, 100);
    let d = ConstellationConfiguration::new(StealStrategy::BIGGEST, StealStrategy::BIGGEST, 1, 4, true, ContextVec::new(), 5);
    assert_eq!(d.number_of_threads, 4);
    assert!(d.debug);
}

#[test]
fn single_event_collector_waits_for_one_event() {
    let mut c = SingleEventCollector::new();
    assert!(c.get_event().is_none());
    assert_eq!(c.initialize(), State::SUSPEND);
    assert_eq!(c.process(None), State::SUSPEND);
    assert_eq!(c.process(Some(event("Hello World", 1, 2))), State::FINISH);
    c.cleanup();
    assert_eq!(c.get_event().unwrap().get_payload(), &b"Hello World".to_vec());
}

#[test]
fn error_descriptions() {
    assert_eq!(ConstellationError::StateError.describe(), "operation not allowed in this state");
    assert_eq!(ConstellationError::ShutdownPending.describe(), "work is left, shutdown pending");
    assert_eq!(ConstellationError::InternalInvariant.describe(), "internal invariant violated");
    assert_eq!(ConstellationError::TransportError.describe(), "transport failure");
}

fn wrapper(n: u64, expects: bool) -> ActivityWrapper {
    ActivityWrapper::new(aid(n), &ctx("c"), false, expects)
}

#[test]
fn executor_prefers_suspended_activity_with_event() {
    let mut w = ExecutorQueues::new();
    assert!(matches!(w.next_step(), Step::Idle));
    w.push_runnable(wrapper(1, true));
    w.push_runnable(wrapper(2, false));
    assert_eq!(w.load_count(), 2);
    // Activity 1 starts and suspends.
    let a = loop {
        match w.next_step() {
            Step::Initialize(a) if a.id.activity_id == 1 => break a,
            Step::Initialize(a) => {
                assert!(matches!(w.after_initialize(a, State::SUSPEND), Step::Suspended));
            }
            _ => panic!("expected a fresh activity"),
        }
    };
    assert!(matches!(w.after_initialize(a, State::SUSPEND), Step::Suspended));
    w.push_event((0, 0, 1), event("x", 9, 1));
    match w.next_step() {
        Step::Process(a, Some(e)) => {
            assert_eq!(a.id.activity_id, 1);
            assert_eq!(e.get_payload(), &b"x".to_vec());
            assert!(matches!(w.after_process(a, State::FINISH), Step::Cleanup(_)));
        }
        _ => panic!("expected the suspended activity with its event"),
    }
}

#[test]
fn finished_initialize_without_events_goes_to_cleanup() {
    let mut w = ExecutorQueues::new();
    w.push_runnable(wrapper(5, false));
    match w.next_step() {
        Step::Initialize(a) => match w.after_initialize(a, State::FINISH) {
            Step::Cleanup(a) => assert_eq!(a.id.activity_id, 5),
            _ => panic!("expected cleanup"),
        },
        _ => panic!("expected a fresh activity"),
    }
    assert!(w.queues_empty());
    assert!(!w.has_activity(&(0, 0, 5)));
}

#[test]
fn finished_initialize_expecting_events_takes_queued_event_or_suspends() {
    let mut w = ExecutorQueues::new();
    w.push_runnable(wrapper(1, true));
    w.push_runnable(wrapper(2, true));
    w.push_event((0, 0, 1), event("e", 3, 1));
    let mut saw_process = false;
    let mut saw_suspend = false;
    for _ in 0..2 {
        match w.next_step() {
            Step::Initialize(a) => match w.after_initialize(a, State::FINISH) {
                Step::Process(a, Some(e)) => {
                    assert_eq!(a.id.activity_id, 1);
                    assert_eq!(e.get_payload(), &b"e".to_vec());
                    saw_process = true;
                    assert!(matches!(w.after_process(a, State::FINISH), Step::Cleanup(_)));
                }
                Step::Suspended => saw_suspend = true,
                _ => panic!("unexpected step"),
            },
            _ => panic!("expected a fresh activity"),
        }
    }
    assert!(saw_process && saw_suspend);
    assert!(w.has_activity(&(0, 0, 2)));
    assert!(!w.queues_empty());
}

#[test]
fn identifier_text_forms() {
    let a = ActivityIdentifier { constellation_id: -12, node_info: node(3), activity_id: 405 };
    assert_eq!(a.to_string(), "-12:3:405");
    assert_eq!(a.text(), "-12:3:405");
    assert_eq!(a.label(), "CID:-12:NID:3:AID:405");
    let b = ActivityIdentifier { constellation_id: i32::MIN, node_info: node(0), activity_id: u64::MAX };
    assert_eq!(b.text(), "-2147483648:0:18446744073709551615");
    let c = ConstellationIdentifier::new(7, node(10), -1);
    assert_eq!(c.to_string(), "CID:7:10");
    assert_eq!(c.label(), "CID:7:NID:10:TID:-1");
}

#[test]
fn event_queue_keys_snapshot() {
    let mut q = EventQueue::new();
    assert!(q.keys().is_empty());
    q.insert((0, 0, 1), event("x", 9, 1));
    q.insert((0, 0, 2), event("y", 9, 2));
    q.insert((0, 0, 1), event("z", 9, 1));
    let mut keys = q.keys();
    keys.sort();
    assert_eq!(keys, vec![(0, 0, 1), (0, 0, 2)]);
    q.remove((0, 0, 2));
    assert_eq!(q.keys(), vec![(0, 0, 1)]);
}
