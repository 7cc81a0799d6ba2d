use std::cell::RefCell;
use std::collections::HashMap;
use std::rc::Rc;

use constellation_rust::{
    new_constellation, ActivityIdentifier, Constellation, ConstellationConfiguration, ConstellationError,
    ConstellationIdentifier, Context, ContextVec, Event, IdKey, Mode, MultiThreadHelper, NodeHandler, Phase,
    State, Step, StealStrategy,
};

/// The body of an activity, driven by the test runtime below.
trait Body {
    fn initialize(&mut self, cx: &mut Cx, id: &ActivityIdentifier) -> State;
    fn process(&mut self, cx: &mut Cx, e: Option<Event>, id: &ActivityIdentifier) -> State;
}

/// What a running activity may do: submit and send through its worker.
struct Cx<'a> {
    h: &'a mut MultiThreadHelper,
    w: usize,
    spawned: Vec<(IdKey, Box<dyn Body>)>,
}

impl<'a> Cx<'a> {
    fn submit(&mut self, body: Box<dyn Body>, c: &Context, expects: bool) -> ActivityIdentifier {
        let id = self.h.submit(c, true, expects);
        self.spawned.push((id.key(), body));
        id
    }

    fn send(&mut self, e: Event) {
        self.h.send_from_worker(self.w, e);
    }
}

/// Runs the executors and the coordinator in turn on one thread.
struct Runtime {
    c: Constellation,
    bodies: HashMap<IdKey, Box<dyn Body>>,
    placed_on: HashMap<IdKey, usize>,
    cleanups: HashMap<IdKey, usize>,
}

fn config(threads: i32) -> Box<ConstellationConfiguration> {
    ConstellationConfiguration::new(
        StealStrategy::SMALLEST,
        StealStrategy::SMALLEST,
        1,
        threads,
        false,
        ContextVec::new(),
        100,
    )
}

fn const_id() -> ConstellationIdentifier {
    ConstellationIdentifier::new(0, NodeHandler { node_name: "test".to_string(), node_id: 0 }, 0)
}

fn ctx() -> Context {
    Context { label: "test".to_string() }
}

impl Runtime {
    fn new(mode: Mode, threads: i32) -> Runtime {
        let mut c = new_constellation(mode, &config(threads), const_id()).ok().unwrap();
        assert_eq!(c.activate(true), Ok(true));
        Runtime { c, bodies: HashMap::new(), placed_on: HashMap::new(), cleanups: HashMap::new() }
    }

    fn submit(&mut self, body: Box<dyn Body>, expects: bool) -> ActivityIdentifier {
        let id = self.c.submit(&ctx(), true, expects).ok().unwrap();
        self.bodies.insert(id.key(), body);
        id
    }

    fn with_body<F>(&mut self, w: usize, key: IdKey, f: F) -> State
    where
        F: FnOnce(&mut Box<dyn Body>, &mut Cx) -> State,
    {
        let mut body = self.bodies.remove(&key).expect("activity body");
        let mut cx = Cx { h: self.c.coordinator_mut(), w, spawned: Vec::new() };
        let s = f(&mut body, &mut cx);
        let spawned = std::mem::take(&mut cx.spawned);
        for (k, b) in spawned {
            self.bodies.insert(k, b);
        }
        self.bodies.insert(key, body);
        s
    }

    /// Runs worker `w` until its current activity is parked or cleaned up.
    /// Returns false when the worker had nothing to do.
    fn run_worker(&mut self, w: usize) -> bool {
        let mut step = self.c.coordinator_mut().next_step(w);
        loop {
            step = match step {
                Step::Initialize(a) => {
                    let key = a.id.key();
                    self.placed_on.insert(key, w);
                    let id = a.id.clone();
                    let s = self.with_body(w, key, |b, cx| b.initialize(cx, &id));
                    self.c.coordinator_mut().after_initialize(w, a, s)
                }
                Step::Process(a, e) => {
                    let key = a.id.key();
                    let id = a.id.clone();
                    let s = self.with_body(w, key, |b, cx| b.process(cx, e, &id));
                    self.c.coordinator_mut().after_process(w, a, s)
                }
                Step::Cleanup(a) => {
                    let key = a.id.key();
                    self.bodies.remove(&key);
                    *self.cleanups.entry(key).or_insert(0) += 1;
                    return true;
                }
                Step::Suspended => return true,
                Step::Idle => return false,
            }
        }
    }

    fn run(&mut self, rounds: usize) {
        for _ in 0..rounds {
            self.c.coordinator_mut().run_once();
            let mut busy = false;
            for w in 0..self.c.coordinator_ref().worker_count() {
                busy |= self.run_worker(w);
            }
            if !busy && self.c.coordinator_ref().pending_activity_count() == 0
                && self.c.coordinator_ref().pending_event_count() == 0
            {
                return;
            }
        }
    }
}

/// Suspends until `expected` events have arrived, recording them.
struct Collector {
    expected: usize,
    got: Rc<RefCell<Vec<Event>>>,
}

impl Body for Collector {
    fn initialize(&mut self, _cx: &mut Cx, _id: &ActivityIdentifier) -> State {
        State::SUSPEND
    }

    fn process(&mut self, _cx: &mut Cx, e: Option<Event>, _id: &ActivityIdentifier) -> State {
        if let Some(e) = e {
            self.got.borrow_mut().push(e);
        }
        if self.got.borrow().len() >= self.expected {
            State::FINISH
        } else {
            State::SUSPEND
        }
    }
}

/// Sends each payload to `target` from `initialize`, then finishes.
struct Sender {
    target: ActivityIdentifier,
    payloads: Vec<&'static str>,
}

impl Body for Sender {
    fn initialize(&mut self, cx: &mut Cx, id: &ActivityIdentifier) -> State {
        for p in &self.payloads {
            cx.send(*Event::new(p.as_bytes().to_vec(), id.clone(), self.target.clone()));
        }
        State::FINISH
    }

    fn process(&mut self, _cx: &mut Cx, _e: Option<Event>, _id: &ActivityIdentifier) -> State {
        State::FINISH
    }
}

fn payload_text(e: &Event) -> String {
    String::from_utf8(e.get_payload().clone()).unwrap()
}

#[test]
fn hello_world_reaches_collector() {
    let mut rt = Runtime::new(Mode::SingleThreaded, 1);
    let got = Rc::new(RefCell::new(Vec::new()));
    let c = rt.submit(Box::new(Collector { expected: 1, got: got.clone() }), true);
    let s = rt.submit(Box::new(Sender { target: c.clone(), payloads: vec!["Hello World"] }), false);
    rt.run(100);
    let got = got.borrow();
    assert_eq!(got.len(), 1);
    assert_eq!(payload_text(&got[0]), "Hello World");
    assert_eq!(got[0].get_src(), s);
    assert_eq!(got[0].get_dst(), c);
    assert_eq!(rt.c.done(), Ok(true));
    assert_eq!(rt.c.current_phase(), Phase::Terminated);
}

fn encode(offset: usize, v: &[i32]) -> Vec<u8> {
    let mut out = (offset as u32).to_le_bytes().to_vec();
    for x in v {
        out.extend_from_slice(&x.to_le_bytes());
    }
    out
}

fn decode(b: &[u8]) -> (usize, Vec<i32>) {
    let offset = u32::from_le_bytes([b[0], b[1], b[2], b[3]]) as usize;
    let v = b[4..].chunks(4).map(|c| i32::from_le_bytes([c[0], c[1], c[2], c[3]])).collect();
    (offset, v)
}

/// Adds two vectors, splitting in halves down to `threshold` elements and
/// sending each partial sum to its parent.
struct Compute {
    parent: ActivityIdentifier,
    offset: usize,
    v1: Vec<i32>,
    v2: Vec<i32>,
    threshold: usize,
    result: Vec<i32>,
    received: usize,
}

impl Body for Compute {
    fn initialize(&mut self, cx: &mut Cx, id: &ActivityIdentifier) -> State {
        let n = self.v1.len();
        if n <= self.threshold {
            let sum: Vec<i32> = self.v1.iter().zip(self.v2.iter()).map(|(a, b)| a + b).collect();
            cx.send(*Event::new(encode(self.offset, &sum), id.clone(), self.parent.clone()));
            return State::FINISH;
        }
        self.result = vec![0; n];
        let mid = n / 2;
        for (lo, hi) in [(0, mid), (mid, n)] {
            let child = Compute {
                parent: id.clone(),
                offset: self.offset + lo,
                v1: self.v1[lo..hi].to_vec(),
                v2: self.v2[lo..hi].to_vec(),
                threshold: self.threshold,
                result: Vec::new(),
                received: 0,
            };
            let expects = hi - lo > self.threshold;
            cx.submit(Box::new(child), &ctx(), expects);
        }
        State::FINISH
    }

    fn process(&mut self, cx: &mut Cx, e: Option<Event>, id: &ActivityIdentifier) -> State {
        let e = match e {
            Some(e) => e,
            None => return State::SUSPEND,
        };
        let (offset, part) = decode(e.get_payload());
        let start = offset - self.offset;
        self.result[start..start + part.len()].copy_from_slice(&part);
        self.received += 1;
        if self.received < 2 {
            return State::SUSPEND;
        }
        cx.send(*Event::new(encode(self.offset, &self.result), id.clone(), self.parent.clone()));
        State::FINISH
    }
}

fn vector_add(workers: i32) {
    let mut rt = Runtime::new(Mode::MultiThreaded, workers);
    let got = Rc::new(RefCell::new(Vec::new()));
    let collector = rt.submit(Box::new(Collector { expected: 1, got: got.clone() }), true);
    let v: Vec<i32> = (0..40).collect();
    rt.submit(
        Box::new(Compute {
            parent: collector,
            offset: 0,
            v1: v.clone(),
            v2: v.clone(),
            threshold: 10,
            result: Vec::new(),
            received: 0,
        }),
        true,
    );
    rt.run(1000);
    let got = got.borrow();
    assert_eq!(got.len(), 1);
    let (offset, sum) = decode(got[0].get_payload());
    assert_eq!(offset, 0);
    let expected: Vec<i32> = (0..40).map(|x| 2 * x).collect();
    assert_eq!(sum, expected);
    assert_eq!(rt.c.done(), Ok(true));
}

#[test]
fn vector_add_on_four_workers() {
    vector_add(4);
}

#[test]
fn vector_add_on_one_worker() {
    vector_add(1);
}

#[test]
fn events_from_one_sender_keep_their_order() {
    let mut rt = Runtime::new(Mode::MultiThreaded, 3);
    let got = Rc::new(RefCell::new(Vec::new()));
    let d = rt.submit(Box::new(Collector { expected: 3, got: got.clone() }), true);
    rt.submit(Box::new(Sender { target: d.clone(), payloads: vec!["a1", "a2"] }), false);
    rt.submit(Box::new(Sender { target: d.clone(), payloads: vec!["b"] }), false);
    rt.run(100);
    let texts: Vec<String> = got.borrow().iter().map(payload_text).collect();
    assert_eq!(texts.len(), 3);
    assert!(texts.contains(&"b".to_string()));
    let a1 = texts.iter().position(|t| t == "a1").unwrap();
    let a2 = texts.iter().position(|t| t == "a2").unwrap();
    assert!(a1 < a2);
    assert_eq!(rt.c.done(), Ok(true));
}

#[test]
fn event_for_unknown_destination_waits_for_it() {
    let mut rt = Runtime::new(Mode::MultiThreaded, 2);
    let next = rt.c.identifier();
    let future = ActivityIdentifier {
        constellation_id: next.constellation_id,
        node_info: next.node_info.clone(),
        activity_id: next.activity_counter,
    };
    let src = ActivityIdentifier { activity_id: 999, ..future.clone() };
    assert_eq!(rt.c.send(*Event::new(b"early".to_vec(), src, future.clone())), Ok(()));
    rt.c.coordinator_mut().run_once();
    assert!(rt.c.coordinator_ref().waiting_events().contains_key(&future.key()));
    let got = Rc::new(RefCell::new(Vec::new()));
    let id = rt.submit(Box::new(Collector { expected: 1, got: got.clone() }), true);
    assert_eq!(id, future);
    rt.run(100);
    assert_eq!(got.borrow().len(), 1);
    assert_eq!(payload_text(&got.borrow()[0]), "early");
    assert!(rt.c.coordinator_ref().waiting_events().is_empty());
    assert_eq!(rt.c.done(), Ok(true));
}

#[test]
fn shutdown_is_refused_while_an_event_is_awaited() {
    let mut rt = Runtime::new(Mode::MultiThreaded, 2);
    let got = Rc::new(RefCell::new(Vec::new()));
    rt.submit(Box::new(Collector { expected: 1, got: got.clone() }), true);
    rt.run(100);
    assert_eq!(rt.c.done(), Ok(false));
    assert_eq!(rt.c.current_phase(), Phase::ShuttingDown);
    rt.run(10);
    assert_eq!(rt.c.done(), Ok(false));
    assert_eq!(rt.c.done(), Ok(false));
    assert_eq!(got.borrow().len(), 0);
}

/// Finishes at once and expects nothing.
struct Quick;

impl Body for Quick {
    fn initialize(&mut self, _cx: &mut Cx, _id: &ActivityIdentifier) -> State {
        State::FINISH
    }

    fn process(&mut self, _cx: &mut Cx, _e: Option<Event>, _id: &ActivityIdentifier) -> State {
        State::FINISH
    }
}

#[test]
fn load_is_spread_over_four_workers() {
    let mut rt = Runtime::new(Mode::MultiThreaded, 4);
    let mut ids = Vec::new();
    for _ in 0..40 {
        ids.push(rt.submit(Box::new(Quick), false));
    }
    rt.c.coordinator_mut().run_once();
    for w in 0..4 {
        let load = rt.c.coordinator_ref().worker(w).load_count();
        assert!((8..=12).contains(&load), "worker {} has {}", w, load);
    }
    rt.run(100);
    let mut per_worker = [0usize; 4];
    for id in &ids {
        per_worker[rt.placed_on[&id.key()]] += 1;
        assert_eq!(rt.cleanups[&id.key()], 1);
    }
    for n in per_worker {
        assert!((8..=12).contains(&n));
    }
    assert_eq!(rt.c.done(), Ok(true));
}

#[test]
fn finishing_activity_without_events_is_cleaned_up_once() {
    let mut rt = Runtime::new(Mode::SingleThreaded, 1);
    let id = rt.submit(Box::new(Quick), false);
    rt.run(10);
    assert_eq!(rt.cleanups.get(&id.key()), Some(&1));
    assert_eq!(rt.c.done(), Ok(true));
}

#[test]
fn single_worker_takes_every_submission() {
    let mut rt = Runtime::new(Mode::MultiThreaded, 1);
    for _ in 0..5 {
        rt.submit(Box::new(Quick), false);
    }
    rt.c.coordinator_mut().run_once();
    assert_eq!(rt.c.coordinator_ref().worker(0).load_count(), 5);
    rt.run(10);
    assert_eq!(rt.cleanups.len(), 5);
}

#[test]
fn submit_then_send_reaches_activity() {
    let mut rt = Runtime::new(Mode::MultiThreaded, 2);
    let got = Rc::new(RefCell::new(Vec::new()));
    let d = rt.submit(Box::new(Collector { expected: 1, got: got.clone() }), true);
    let src = ActivityIdentifier { activity_id: 500, ..d.clone() };
    assert_eq!(rt.c.send(*Event::new(b"now".to_vec(), src, d.clone())), Ok(()));
    rt.run(10);
    assert_eq!(got.borrow().len(), 1);
    assert_eq!(payload_text(&got.borrow()[0]), "now");
}

#[test]
fn facade_operations_need_the_active_state() {
    let mut c = new_constellation(Mode::MultiThreaded, &config(2), const_id()).ok().unwrap();
    assert_eq!(c.current_phase(), Phase::Inactive);
    assert_eq!(c.submit(&ctx(), true, false).err(), Some(ConstellationError::StateError));
    let a = ActivityIdentifier { constellation_id: 0, node_info: NodeHandler { node_name: "n".to_string(), node_id: 0 }, activity_id: 0 };
    assert_eq!(c.send(*Event::new(Vec::new(), a.clone(), a)), Err(ConstellationError::StateError));
    assert_eq!(c.done(), Err(ConstellationError::StateError));
    assert_eq!(c.is_master(), Err(ConstellationError::StateError));
    assert_eq!(c.activate(false), Ok(false));
    assert_eq!(c.is_master(), Ok(false));
    assert_eq!(c.activate(true), Err(ConstellationError::StateError));
    assert_eq!(c.nodes(), 1);
    assert_eq!(c.done(), Ok(true));
    assert_eq!(c.current_phase(), Phase::Terminated);
    assert_eq!(c.submit(&ctx(), true, false).err(), Some(ConstellationError::StateError));
    assert_eq!(c.done(), Err(ConstellationError::StateError));
}

#[test]
fn exhausted_identifiers_fail_submission() {
    let mut id = const_id();
    id.activity_counter = u64::MAX;
    let mut c = new_constellation(Mode::SingleThreaded, &config(1), id).ok().unwrap();
    c.activate(true).unwrap();
    assert_eq!(c.submit(&ctx(), true, false).err(), Some(ConstellationError::InternalInvariant));
}

#[test]
fn distributed_mode_needs_a_transport() {
    assert_eq!(
        new_constellation(Mode::Distributed, &config(2), const_id()).err(),
        Some(ConstellationError::TransportError)
    );
}

#[test]
fn submissions_get_consecutive_identifiers() {
    let mut c = new_constellation(Mode::MultiThreaded, &config(2), const_id()).ok().unwrap();
    c.activate(true).unwrap();
    let a = c.submit(&ctx(), true, false).ok().unwrap();
    let b = c.submit(&ctx(), false, true).ok().unwrap();
    assert_eq!(a.activity_id, 0);
    assert_eq!(b.activity_id, 1);
    assert_ne!(a, b);
    assert_eq!(c.coordinator_ref().pending_activity_count(), 2);
    c.coordinator_mut().run_once();
    assert_eq!(c.coordinator_ref().pending_activity_count(), 0);
    assert_eq!(c.coordinator_ref().worker(0).load_count(), 1);
    assert_eq!(c.coordinator_ref().worker(1).load_count(), 1);
    assert_eq!(c.coordinator_ref().get_thread_with_least_work(), 0);
}

#[test]
fn running_activity_is_in_no_map() {
    let mut c = new_constellation(Mode::MultiThreaded, &config(2), const_id()).ok().unwrap();
    c.activate(true).unwrap();
    let a = c.submit(&ctx(), true, true).ok().unwrap();
    c.coordinator_mut().run_once();
    let h = c.coordinator_mut();
    assert!(h.worker(0).has_activity(&a.key()));
    assert!(!h.worker(1).has_activity(&a.key()));
    assert_eq!(h.worker(0).load_count(), 1);
    let taken = match h.next_step(0) {
        Step::Initialize(x) => x,
        _ => panic!("expected the submitted activity"),
    };
    assert_eq!(h.worker_running(0), Some(a.key()));
    assert_eq!(h.worker(0).load_count(), 0);
    assert!(h.worker(0).has_activity(&a.key()));
    assert!(matches!(h.after_initialize(0, taken, State::SUSPEND), Step::Suspended));
    assert_eq!(h.worker_running(0), None);
    assert_eq!(h.worker(0).load_count(), 1);
    assert!(!h.worker(1).has_activity(&a.key()));
}

#[test]
fn event_for_never_submitted_activity_stays_parked() {
    let mut rt = Runtime::new(Mode::MultiThreaded, 2);
    let ghost = ActivityIdentifier {
        constellation_id: 7,
        node_info: NodeHandler { node_name: "elsewhere".to_string(), node_id: 3 },
        activity_id: 12,
    };
    assert_eq!(rt.c.send(*Event::new(b"lost".to_vec(), ghost.clone(), ghost.clone())), Ok(()));
    let got = Rc::new(RefCell::new(Vec::new()));
    let c = rt.submit(Box::new(Collector { expected: 1, got: got.clone() }), true);
    rt.submit(Box::new(Sender { target: c, payloads: vec!["Hello World"] }), false);
    rt.run(100);
    assert_eq!(got.borrow().len(), 1);
    assert!(rt.c.coordinator_ref().waiting_events().contains_key(&ghost.key()));
    for w in 0..2 {
        assert!(rt.c.coordinator_ref().worker_done(w));
    }
    assert_eq!(rt.c.done(), Ok(true));
}

#[test]
fn placement_prefers_the_least_loaded_worker() {
    let mut rt = Runtime::new(Mode::MultiThreaded, 2);
    let got = Rc::new(RefCell::new(Vec::new()));
    let c = rt.submit(Box::new(Collector { expected: 1, got: got.clone() }), true);
    rt.run(10);
    assert!(rt.c.coordinator_ref().worker(0).has_activity(&c.key()));
    let a = rt.submit(Box::new(Quick), false);
    let b = rt.submit(Box::new(Quick), false);
    let d = rt.submit(Box::new(Quick), false);
    rt.c.coordinator_mut().run_once();
    let h = rt.c.coordinator_ref();
    assert!(h.worker(1).has_activity(&a.key()));
    assert!(h.worker(0).has_activity(&b.key()));
    assert!(h.worker(1).has_activity(&d.key()));
    assert_eq!(h.worker(0).load_count(), 2);
    assert_eq!(h.worker(1).load_count(), 2);
}
