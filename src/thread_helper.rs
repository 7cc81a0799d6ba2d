//! The coordinator: it owns every worker's collections and the two ingest
//! queues, places submitted activities on the least loaded worker, routes
//! each event to the worker that holds its destination, and parks events
//! whose destination is held by no worker until that activity is placed.
use vstd::prelude::*;
use crate::activity::State;
use crate::activity_identifier::{ActivityIdentifier, IdKey};
use crate::activity_wrapper::ActivityWrapper;
use crate::constellation_identifier::ConstellationIdentifier;
use crate::context::Context;
use crate::event::Event;
use crate::event_queue::{lists_nonempty, queued, EventQueue};
use crate::executor::{after_initialize_post, after_process_post, next_step_post, ExecutorQueues, Step};
use crate::tables::EventMap;

verus! {

/// The events of `s` addressed to `k`, in the order of `s`.
pub open spec fn for_dst(s: Seq<Event>, k: IdKey) -> Seq<Event>
    decreases s.len(),
{
    if s.len() == 0 {
        s
    } else if s.last().dst_spec().id_key() == k {
        for_dst(s.drop_last(), k).push(s.last())
    } else {
        for_dst(s.drop_last(), k)
    }
}

/// Some worker of `ws` holds activity `k`.
pub open spec fn held_by_any(ws: Seq<ExecutorQueues>, k: IdKey) -> bool {
    exists|i: int| 0 <= i < ws.len() && #[trigger] ws[i].holds(k)
}

/// The worker that holds `k`, or -1 when no worker does.
pub open spec fn route(ws: Seq<ExecutorQueues>, k: IdKey) -> int {
    if held_by_any(ws, k) {
        choose|i: int| 0 <= i < ws.len() && #[trigger] ws[i].holds(k)
    } else {
        -1
    }
}

/// `r` is the worker with the smallest load, the lowest index among equals.
pub open spec fn is_least_loaded(ws: Seq<ExecutorQueues>, r: int) -> bool {
    &&& 0 <= r < ws.len()
    &&& forall|j: int| 0 <= j < ws.len() ==> ws[r].load() <= #[trigger] ws[j].load()
    &&& forall|j: int| 0 <= j < r ==> ws[r].load() < #[trigger] ws[j].load()
}

/// What worker `i` finds queued for `k` after the events `s` were routed
/// over workers `ws`: its earlier events, then those of `s` for `k` if it
/// holds `k`.
pub open spec fn routed_to(ws: Seq<ExecutorQueues>, s: Seq<Event>, i: int, k: IdKey) -> Seq<Event> {
    queued(ws[i].events(), k) + if route(ws, k) == i {
        for_dst(s, k)
    } else {
        Seq::empty()
    }
}

/// What the parking queue holds for `k` after the events `s` were routed:
/// its earlier events, then those of `s` for `k` if no worker holds `k`.
pub open spec fn parked(ws: Seq<ExecutorQueues>, w: EventMap, s: Seq<Event>, k: IdKey) -> Seq<Event> {
    queued(w, k) + if route(ws, k) == -1 {
        for_dst(s, k)
    } else {
        Seq::empty()
    }
}

/// Worker `r` of `o` received activity `a` in its runnable map and the
/// events `es` for `a`, and no other worker changed.
pub open spec fn placed(o: Seq<ExecutorQueues>, n: Seq<ExecutorQueues>, r: int, a: ActivityWrapper, es: Seq<Event>) -> bool {
    let k = a.id.id_key();
    &&& n.len() == o.len()
    &&& n[r].runnable() == o[r].runnable().insert(k, a)
    &&& n[r].suspended() == o[r].suspended()
    &&& n[r].running() == o[r].running()
    &&& queued(n[r].events(), k) == queued(o[r].events(), k) + es
    &&& forall|x: IdKey| x != k ==> queued(n[r].events(), x) == queued(o[r].events(), x)
    &&& forall|j: int| 0 <= j < o.len() && j != r ==> n[j] == o[j]
}

/// The activities `ps` were placed one after another: from workers
/// `tws[p]` and parking queue `tw[p]`, activity `ps[p]`, held by no worker,
/// went to worker `rs[p]`, the least loaded of `tws[p]` (lowest index among
/// equals), together with the events parked for it, giving `tws[p + 1]`
/// and `tw[p + 1]`.
pub open spec fn placement_steps(
    tws: Seq<Seq<ExecutorQueues>>,
    tw: Seq<EventMap>,
    rs: Seq<int>,
    ps: Seq<ActivityWrapper>,
) -> bool {
    &&& tws.len() == ps.len() + 1
    &&& tw.len() == ps.len() + 1
    &&& rs.len() == ps.len()
    &&& forall|p: int| 0 <= p < ps.len() ==> #[trigger] placement_step(tws, tw, rs, ps, p)
}

/// Step `p` of `placement_steps`.
pub open spec fn placement_step(
    tws: Seq<Seq<ExecutorQueues>>,
    tw: Seq<EventMap>,
    rs: Seq<int>,
    ps: Seq<ActivityWrapper>,
    p: int,
) -> bool {
    let k = ps[p].id.id_key();
    &&& is_least_loaded(tws[p], rs[p])
    &&& !held_by_any(tws[p], k)
    &&& placed(tws[p], tws[p + 1], rs[p], ps[p], queued(tw[p], k))
    &&& tw[p + 1] == tw[p].remove(k)
}

/// The activities `ps` were placed, from workers `ows` and parking queue
/// `ow` to workers `ws` and parking queue `w`: each is now held by some
/// worker, which received the events parked for it; no activity moved or
/// left; nothing else changed.
pub open spec fn activities_placed(
    ows: Seq<ExecutorQueues>,
    ow: EventMap,
    ps: Seq<ActivityWrapper>,
    ws: Seq<ExecutorQueues>,
    w: EventMap,
) -> bool {
    &&& ws.len() == ows.len()
    &&& forall|p: int| 0 <= p < ps.len() ==> {
        let k = (#[trigger] ps[p]).id.id_key();
        let r = route(ws, k);
        &&& held_by_any(ws, k)
        &&& ws[r].runnable().contains_key(k)
        &&& ws[r].runnable()[k] == ps[p]
        &&& !w.contains_key(k)
        &&& queued(ws[r].events(), k) == queued(ows[r].events(), k) + queued(ow, k)
    }
    &&& forall|i: int, k: IdKey| 0 <= i < ows.len() && #[trigger] ows[i].holds(k) ==> ws[i].holds(k)
    &&& forall|i: int, k: IdKey| 0 <= i < ows.len() && #[trigger] ows[i].runnable().contains_key(k)
        ==> ws[i].runnable().contains_key(k) && ws[i].runnable()[k] == ows[i].runnable()[k]
    &&& forall|i: int| 0 <= i < ows.len() ==> (#[trigger] ws[i]).suspended() == ows[i].suspended()
        && ws[i].running() == ows[i].running()
    &&& forall|k: IdKey| #![trigger queued(w, k)] (forall|p: int| 0 <= p < ps.len() ==> (#[trigger] ps[p]).id.id_key() != k) ==> {
        &&& queued(w, k) == queued(ow, k)
        &&& forall|i: int| 0 <= i < ows.len() ==> queued((#[trigger] ws[i]).events(), k) == queued(ows[i].events(), k)
    }
}

/// Placing one more activity extends what `activities_placed` describes.
proof fn lemma_place_one(
    ows: Seq<ExecutorQueues>,
    ow: EventMap,
    ops: Seq<ActivityWrapper>,
    n: int,
    ws: Seq<ExecutorQueues>,
    w: EventMap,
    nws: Seq<ExecutorQueues>,
    nw: EventMap,
    r: int,
    a: ActivityWrapper,
)
    requires
        0 <= n < ops.len(),
        ops[n] == a,
        activities_placed(ows, ow, ops.take(n), ws, w),
        placed(ws, nws, r, a, queued(w, a.id.id_key())),
        nw == w.remove(a.id.id_key()),
        0 <= r < ws.len(),
        !held_by_any(ws, a.id.id_key()),
        forall|i: int, j: int, k: IdKey|
            0 <= i < nws.len() && 0 <= j < nws.len() && i != j && #[trigger] nws[i].holds(k)
                ==> !#[trigger] nws[j].holds(k),
        forall|p: int, q: int|
            0 <= p < ops.len() && 0 <= q < ops.len() && p != q ==> (#[trigger] ops[p]).id.id_key()
                != (#[trigger] ops[q]).id.id_key(),
    ensures
        activities_placed(ows, ow, ops.take(n + 1), nws, nw),
{
    let k = a.id.id_key();
    let pre = ops.take(n);
    let post = ops.take(n + 1);
    assert forall|j: int, x: IdKey| 0 <= j < nws.len() implies #[trigger] nws[j].holds(x) == (ws[j].holds(x) || (j == r && x == k)) by {
        if j != r {
            assert(nws[j] == ws[j]);
        }
    }
    assert(nws[r].holds(k));
    assert(held_by_any(nws, k));
    assert(route(nws, k) == r);
    assert forall|x: IdKey| held_by_any(ws, x) implies route(nws, x) == route(ws, x) by {
        let i = route(ws, x);
        assert(ws[i].holds(x));
        assert(nws[i].holds(x));
        assert(held_by_any(nws, x));
    }
    assert(queued(ow, k) == queued(w, k)) by {
        assert forall|p: int| 0 <= p < pre.len() implies (#[trigger] pre[p]).id.id_key() != k by {
            assert(pre[p] == ops[p]);
        }
    }
    assert(queued(ows[r].events(), k) == queued(ws[r].events(), k)) by {
        assert forall|p: int| 0 <= p < pre.len() implies (#[trigger] pre[p]).id.id_key() != k by {
            assert(pre[p] == ops[p]);
        }
    }
    assert forall|p: int| 0 <= p < post.len() implies {
        let kk = (#[trigger] post[p]).id.id_key();
        let rr = route(nws, kk);
        &&& held_by_any(nws, kk)
        &&& nws[rr].runnable().contains_key(kk)
        &&& nws[rr].runnable()[kk] == post[p]
        &&& !nw.contains_key(kk)
        &&& queued(nws[rr].events(), kk) == queued(ows[rr].events(), kk) + queued(ow, kk)
    } by {
        if p < n {
            assert(post[p] == pre[p]);
            let kk = pre[p].id.id_key();
            assert(kk != k);
            let rr = route(ws, kk);
            assert(held_by_any(ws, kk));
            assert(route(nws, kk) == rr);
            if rr != r {
                assert(nws[rr] == ws[rr]);
            }
        }
    }
    assert forall|k2: IdKey| (forall|p: int| 0 <= p < post.len() ==> (#[trigger] post[p]).id.id_key() != k2) implies {
        &&& queued(nw, k2) == queued(ow, k2)
        &&& forall|i: int| 0 <= i < ows.len() ==> queued((#[trigger] nws[i]).events(), k2) == queued(ows[i].events(), k2)
    } by {
        assert(post[n] == a);
        assert forall|p: int| 0 <= p < pre.len() implies (#[trigger] pre[p]).id.id_key() != k2 by {
            assert(pre[p] == post[p]);
        }
        assert(post[n].id.id_key() != k2);
        assert(queued(w, k2) == queued(ow, k2));
        assert forall|i: int| 0 <= i < ows.len() implies queued((#[trigger] nws[i]).events(), k2) == queued(ows[i].events(), k2) by {
            assert(queued(ws[i].events(), k2) == queued(ows[i].events(), k2));
            if i != r {
                assert(nws[i] == ws[i]);
            }
        }
    }
    assert forall|i: int, x: IdKey| 0 <= i < ows.len() && #[trigger] ows[i].runnable().contains_key(x)
        implies nws[i].runnable().contains_key(x) && nws[i].runnable()[x] == ows[i].runnable()[x] by {
        assert(ws[i].runnable().contains_key(x));
        if i != r {
            assert(nws[i] == ws[i]);
        } else {
            assert(ows[i].holds(x));
            assert(held_by_any(ws, x));
        }
    }
    assert forall|i: int| 0 <= i < ows.len() implies (#[trigger] nws[i]).suspended() == ows[i].suspended()
        && nws[i].running() == ows[i].running() by {
        assert(ws[i].suspended() == ows[i].suspended());
        if i != r {
            assert(nws[i] == ws[i]);
        }
    }
}

/// The events `s` were routed, from workers `ows` and parking queue `ow`
/// to workers `ws` and parking queue `w`: each went to the end of its
/// destination's list on the worker holding the destination, or in the
/// parking queue when none does; no activity moved.
pub open spec fn events_routed(
    ows: Seq<ExecutorQueues>,
    ow: EventMap,
    s: Seq<Event>,
    ws: Seq<ExecutorQueues>,
    w: EventMap,
) -> bool {
    &&& ws.len() == ows.len()
    &&& forall|i: int| 0 <= i < ows.len() ==> {
        &&& (#[trigger] ws[i]).runnable() == ows[i].runnable()
        &&& ws[i].suspended() == ows[i].suspended()
        &&& ws[i].running() == ows[i].running()
    }
    &&& forall|i: int, k: IdKey| 0 <= i < ows.len() ==> #[trigger] queued(ws[i].events(), k) == routed_to(ows, s, i, k)
    &&& forall|k: IdKey| #[trigger] queued(w, k) == parked(ows, ow, s, k)
}

/// Routing an event addressed to `k` adds it to the events for `k`; other
/// destinations are unaffected.
pub proof fn lemma_for_dst_push(s: Seq<Event>, e: Event, k: IdKey)
    ensures
        for_dst(s.push(e), k) == if e.dst_spec().id_key() == k {
            for_dst(s, k).push(e)
        } else {
            for_dst(s, k)
        },
{
    assert(s.push(e).drop_last() =~= s);
}

/// A single event is for its own destination only.
pub proof fn lemma_for_dst_single(e: Event)
    ensures
        forall|k: IdKey| #[trigger] for_dst(seq![e], k) == if e.dst_spec().id_key() == k {
            seq![e]
        } else {
            Seq::<Event>::empty()
        },
{
    assert forall|k: IdKey| #[trigger] for_dst(seq![e], k) == if e.dst_spec().id_key() == k {
        seq![e]
    } else {
        Seq::<Event>::empty()
    } by {
        lemma_for_dst_push(Seq::empty(), e, k);
        assert(Seq::<Event>::empty().push(e) =~= seq![e]);
        assert(for_dst(Seq::<Event>::empty(), k) =~= Seq::<Event>::empty());
    }
}

/// Workers that hold the same activities route every event the same way.
pub proof fn lemma_route_same(a: Seq<ExecutorQueues>, b: Seq<ExecutorQueues>, k: IdKey)
    requires
        a.len() == b.len(),
        forall|i: int| 0 <= i < a.len() ==> (#[trigger] a[i]).holds(k) == b[i].holds(k),
        forall|i: int, j: int| 0 <= i < a.len() && 0 <= j < a.len() && i != j && #[trigger] a[i].holds(k)
            ==> !#[trigger] a[j].holds(k),
    ensures
        route(a, k) == route(b, k),
{
    if held_by_any(a, k) {
        let i = route(a, k);
        assert(b[i].holds(k));
        assert(held_by_any(b, k));
        let j = route(b, k);
        assert(a[j].holds(k));
    } else {
        if held_by_any(b, k) {
            let j = route(b, k);
            assert(a[j].holds(k));
        }
    }
}

/// Changing one worker in a way that keeps it well formed and adds no
/// activity to it keeps the coordinator's invariant.
proof fn lemma_worker_shrinks(o: MultiThreadHelper, n: MultiThreadHelper, w: int)
    requires
        o.inv(),
        0 <= w < o.threads@.len(),
        n.threads@.len() == o.threads@.len(),
        forall|j: int| 0 <= j < o.threads@.len() && j != w ==> n.threads@[j] == o.threads@[j],
        n.threads@[w].inv(),
        forall|x: IdKey| #[trigger] n.threads@[w].holds(x) ==> o.threads@[w].holds(x),
        n.activities_from_threads@ == o.activities_from_threads@,
        n.local_events@ == o.local_events@,
        n.const_id == o.const_id,
    ensures
        n.inv(),
{
    let ws = o.threads@;
    let nws = n.threads@;
    assert forall|j: int, x: IdKey| 0 <= j < nws.len() && #[trigger] nws[j].holds(x) implies ws[j].holds(x) by {
        if j != w {
            assert(nws[j] == ws[j]);
        }
    }
    assert forall|x: IdKey| held_by_any(nws, x) implies held_by_any(ws, x) by {
        let j = choose|j: int| 0 <= j < nws.len() && #[trigger] nws[j].holds(x);
        assert(ws[j].holds(x));
    }
    assert forall|j: int| 0 <= j < nws.len() implies (#[trigger] nws[j]).inv() by {
        if j != w {
            assert(nws[j] == ws[j]);
        }
    }
    assert forall|i: int, j: int, k: IdKey|
        0 <= i < nws.len() && 0 <= j < nws.len() && i != j && #[trigger] nws[i].holds(k)
            implies !#[trigger] nws[j].holds(k) by {
        assert(ws[i].holds(k));
        if nws[j].holds(k) {
            assert(ws[j].holds(k));
        }
    }
    assert forall|i: int, k: IdKey| 0 <= i < nws.len() && #[trigger] nws[i].holds(k) implies k.2 < n.const_id.counter() by {
        assert(ws[i].holds(k));
    }
}

/// What `send_from_worker` does when worker `w` sends `e`, from
/// coordinator `o` to `n`.
pub open spec fn worker_send_post(o: MultiThreadHelper, n: MultiThreadHelper, w: usize, e: Event) -> bool {
    let k = e.dst_spec().id_key();
    let ows = o.workers();
    if o.is_single() {
        &&& n.workers().len() == ows.len()
        &&& n.workers()[w as int].events() == ows[w as int].events().insert(k, queued(ows[w as int].events(), k).push(e))
        &&& n.workers()[w as int].runnable() == ows[w as int].runnable()
        &&& n.workers()[w as int].suspended() == ows[w as int].suspended()
        &&& n.workers()[w as int].running() == ows[w as int].running()
        &&& forall|j: int| 0 <= j < ows.len() && j != w ==> n.workers()[j] == ows[j]
        &&& n.pending_events() == o.pending_events()
        &&& n.waiting() == o.waiting()
    } else if ows[w as int].holds(k) {
        &&& n.pending_events().len() == 0
        &&& events_routed(ows, o.waiting(), o.pending_events().push(e), n.workers(), n.waiting())
    } else {
        &&& n.workers() == ows
        &&& n.pending_events() == o.pending_events().push(e)
        &&& n.waiting() == o.waiting()
    }
}

/// The coordinator's state: the workers, the two ingest queues (activities
/// submitted and events sent, not yet handled) and the parking queue.
///
/// An event is parked only when no worker holds its destination, and the
/// events parked for an activity are handed to its worker at the moment the
/// activity is placed. So no parked event is ever for an activity that a
/// worker holds, and retrying parked events later could never deliver one.
pub struct MultiThreadHelper {
    const_id: ConstellationIdentifier,
    threads: Vec<ExecutorQueues>,
    activities_from_threads: Vec<ActivityWrapper>,
    events_from_threads: Vec<Event>,
    local_events: EventQueue,
    single_threaded: bool,
}

impl MultiThreadHelper {
    /// The workers, by index.
    pub closed spec fn workers(self) -> Seq<ExecutorQueues> {
        self.threads@
    }

    /// Submitted activities not yet placed on a worker, oldest first.
    pub closed spec fn pending_activities(self) -> Seq<ActivityWrapper> {
        self.activities_from_threads@
    }

    /// Sent events not yet routed, oldest first.
    pub closed spec fn pending_events(self) -> Seq<Event> {
        self.events_from_threads@
    }

    /// Events whose destination no worker held when they were routed.
    pub closed spec fn waiting(self) -> EventMap {
        self.local_events@
    }

    /// The identity of this constellation and its sequence counter.
    pub closed spec fn id_source(self) -> ConstellationIdentifier {
        self.const_id
    }

    /// Whether events sent by a worker always stay on that worker.
    pub closed spec fn is_single(self) -> bool {
        self.single_threaded
    }

    /// The coordinator's invariant: every worker is well formed; no two
    /// workers hold the same activity; every activity held or pending has a
    /// sequence number below the counter, and pending ones are distinct and
    /// held by no worker; parked events are for activities no worker holds.
    pub closed spec fn inv(self) -> bool {
        let ws = self.threads@;
        let ps = self.activities_from_threads@;
        &&& ws.len() >= 1
        &&& forall|i: int| 0 <= i < ws.len() ==> (#[trigger] ws[i]).inv()
        &&& lists_nonempty(self.local_events@)
        &&& forall|i: int, j: int, k: IdKey|
            0 <= i < ws.len() && 0 <= j < ws.len() && i != j && #[trigger] ws[i].holds(k)
                ==> !#[trigger] ws[j].holds(k)
        &&& forall|i: int, k: IdKey|
            0 <= i < ws.len() && #[trigger] ws[i].holds(k) ==> k.2 < self.const_id.counter()
        &&& forall|p: int|
            0 <= p < ps.len() ==> (#[trigger] ps[p]).id.id_key().2 < self.const_id.counter()
                && !held_by_any(ws, ps[p].id.id_key())
        &&& forall|p: int, q: int|
            0 <= p < ps.len() && 0 <= q < ps.len() && p != q ==> (#[trigger] ps[p]).id.id_key()
                != (#[trigger] ps[q]).id.id_key()
        &&& forall|k: IdKey| #[trigger] self.local_events@.contains_key(k) ==> !held_by_any(ws, k)
    }

    /// A coordinator over `worker_count` empty workers. With
    /// `single_threaded`, an event sent from a worker is always queued on
    /// that worker.
    pub fn new(const_id: ConstellationIdentifier, worker_count: usize, single_threaded: bool) -> (r: Self)
        requires
            worker_count >= 1,
        ensures
            r.inv(),
            r.workers().len() == worker_count,
            forall|i: int| 0 <= i < worker_count ==> (#[trigger] r.workers()[i]).drained(),
            r.pending_activities().len() == 0,
            r.pending_events().len() == 0,
            r.waiting() == EventMap::empty(),
            r.id_source() == const_id,
            r.is_single() == single_threaded,
    {
        let mut threads: Vec<ExecutorQueues> = Vec::new();
        let mut i: usize = 0;
        while i < worker_count
            invariant
                i <= worker_count,
                threads@.len() == i,
                forall|j: int| 0 <= j < i ==> (#[trigger] threads@[j]).inv() && threads@[j].drained(),
            decreases worker_count - i,
        {
            let q = ExecutorQueues::new();
            assert(q.drained());
            threads.push(q);
            i = i + 1;
        }
        let r = MultiThreadHelper {
            const_id,
            threads,
            activities_from_threads: Vec::new(),
            events_from_threads: Vec::new(),
            local_events: EventQueue::new(),
            single_threaded,
        };
        assert forall|i: int, k: IdKey| 0 <= i < r.threads@.len() implies !r.threads@[i].holds(k) by {
            assert(r.threads@[i].drained());
            assert(!r.threads@[i].runnable().dom().contains(k));
            assert(!r.threads@[i].suspended().dom().contains(k));
        }
        r
    }

    /// The number of workers.
    pub fn worker_count(&self) -> (r: usize)
        ensures
            r == self.workers().len(),
    {
        self.threads.len()
    }

    /// The worker with the smallest sum of runnable and suspended
    /// activities; among equals, the one with the lowest index.
    pub fn get_thread_with_least_work(&self) -> (r: usize)
        requires
            self.inv(),
        ensures
            is_least_loaded(self.workers(), r as int),
    {
        let ghost ws = self.threads@;
        let mut best: usize = 0;
        let mut best_load: u128 = self.threads[0].load_count();
        let mut i: usize = 1;
        while i < self.threads.len()
            invariant
                ws == self.threads@,
                1 <= i <= ws.len(),
                best < i,
                best_load == ws[best as int].load(),
                forall|j: int| 0 <= j < i ==> ws[best as int].load() <= #[trigger] ws[j].load(),
                forall|j: int| 0 <= j < best ==> ws[best as int].load() < #[trigger] ws[j].load(),
            decreases ws.len() - i,
        {
            let l = self.threads[i].load_count();
            if l < best_load {
                best = i;
                best_load = l;
            }
            i = i + 1;
        }
        best
    }

    /// Whether another activity identifier can be generated.
    pub fn can_submit(&self) -> (r: bool)
        ensures
            r == (self.id_source().counter() < u64::MAX),
    {
        self.const_id.can_generate()
    }

    /// Stamps a new activity with the next identifier of this constellation
    /// and queues it for placement on a worker.
    pub fn submit(&mut self, context: &Context, may_be_stolen: bool, expects_events: bool) -> (r: ActivityIdentifier)
        requires
            old(self).inv(),
            old(self).id_source().counter() < u64::MAX,
        ensures
            final(self).inv(),
            r.constellation_id == old(self).id_source().constellation_id,
            r.node_info == old(self).id_source().node_info,
            r.activity_id == old(self).id_source().counter(),
            final(self).id_source().counter() == old(self).id_source().counter() + 1,
            final(self).id_source().constellation_id == old(self).id_source().constellation_id,
            final(self).id_source().node_info == old(self).id_source().node_info,
            final(self).id_source().thread_id == old(self).id_source().thread_id,
            final(self).pending_activities() == old(self).pending_activities().push(
                (ActivityWrapper { id: r, context: *context, may_be_stolen, expects_events }),
            ),
            final(self).workers() == old(self).workers(),
            final(self).pending_events() == old(self).pending_events(),
            final(self).waiting() == old(self).waiting(),
            final(self).is_single() == old(self).is_single(),
    {
        let id = ActivityIdentifier::new(&mut self.const_id);
        let ghost ws = self.threads@;
        let ghost k = id.id_key();
        assert(!held_by_any(ws, k)) by {
            if held_by_any(ws, k) {
                let i = choose|i: int| 0 <= i < ws.len() && #[trigger] ws[i].holds(k);
                assert(ws[i].holds(k));
            }
        }
        let a = ActivityWrapper::new(id.clone(), context, may_be_stolen, expects_events);
        self.activities_from_threads.push(a);
        let ghost ps = self.activities_from_threads@;
        assert forall|p: int, q: int|
            0 <= p < ps.len() && 0 <= q < ps.len() && p != q implies (#[trigger] ps[p]).id.id_key()
                != (#[trigger] ps[q]).id.id_key() by {
            if p < ps.len() - 1 && q < ps.len() - 1 {
                assert(ps[p] == old(self).activities_from_threads@[p]);
                assert(ps[q] == old(self).activities_from_threads@[q]);
            } else if p < ps.len() - 1 {
                assert(ps[p] == old(self).activities_from_threads@[p]);
            } else {
                assert(ps[q] == old(self).activities_from_threads@[q]);
            }
        }
        assert forall|p: int|
            0 <= p < ps.len() implies (#[trigger] ps[p]).id.id_key().2 < self.const_id.counter()
                && !held_by_any(ws, ps[p].id.id_key()) by {
            if p < ps.len() - 1 {
                assert(ps[p] == old(self).activities_from_threads@[p]);
            }
        }
        id
    }

    /// Queues `e` for routing.
    pub fn send(&mut self, e: Event)
        requires
            old(self).inv(),
        ensures
            final(self).inv(),
            final(self).pending_events() == old(self).pending_events().push(e),
            final(self).workers() == old(self).workers(),
            final(self).pending_activities() == old(self).pending_activities(),
            final(self).waiting() == old(self).waiting(),
            final(self).id_source() == old(self).id_source(),
            final(self).is_single() == old(self).is_single(),
    {
        self.events_from_threads.push(e);
    }

    /// Places `a` on the least loaded worker and hands that worker the
    /// events parked for `a`. Returns the worker's index.
    fn distribute_activity(&mut self, a: ActivityWrapper) -> (r: usize)
        requires
            old(self).inv(),
            a.id.id_key().2 < old(self).id_source().counter(),
            !held_by_any(old(self).workers(), a.id.id_key()),
            forall|p: int|
                0 <= p < old(self).pending_activities().len() ==> (#[trigger] old(
                    self,
                ).pending_activities()[p]).id.id_key() != a.id.id_key(),
        ensures
            final(self).inv(),
            is_least_loaded(old(self).workers(), r as int),
            placed(old(self).workers(), final(self).workers(), r as int, a, queued(old(self).waiting(), a.id.id_key())),
            final(self).waiting() == old(self).waiting().remove(a.id.id_key()),
            final(self).pending_activities() == old(self).pending_activities(),
            final(self).pending_events() == old(self).pending_events(),
            final(self).id_source() == old(self).id_source(),
            final(self).is_single() == old(self).is_single(),
    {
        let ghost ws = self.threads@;
        let i = self.get_thread_with_least_work();
        let k = a.id.key();
        let es = self.local_events.remove_all(k);
        self.threads[i].push_runnable(a);
        self.threads[i].push_events(k, es);
        let ghost nws = self.threads@;
        assert forall|j: int, x: IdKey| 0 <= j < nws.len() implies #[trigger] nws[j].holds(x) == (ws[j].holds(x) || (j == i && x == k)) by {
            if j != i {
                assert(nws[j] == ws[j]);
            }
        }
        assert forall|x: IdKey| held_by_any(nws, x) implies held_by_any(ws, x) || x == k by {
            let j = choose|j: int| 0 <= j < nws.len() && #[trigger] nws[j].holds(x);
            if x != k {
                assert(ws[j].holds(x));
            }
        }
        assert forall|j: int| 0 <= j < nws.len() implies (#[trigger] nws[j]).inv() by {
            if j != i {
                assert(nws[j] == ws[j]);
            }
        }
        assert forall|j1: int, j2: int, x: IdKey|
            0 <= j1 < nws.len() && 0 <= j2 < nws.len() && j1 != j2 && #[trigger] nws[j1].holds(x)
                implies !#[trigger] nws[j2].holds(x) by {
            if x == k {
                if j1 != i {
                    assert(ws[j1].holds(x));
                    assert(held_by_any(ws, x));
                } else {
                    assert(nws[j2].holds(x) == ws[j2].holds(x));
                    if ws[j2].holds(x) {
                        assert(held_by_any(ws, x));
                    }
                }
            } else {
                assert(ws[j1].holds(x));
                assert(nws[j2].holds(x) == ws[j2].holds(x));
            }
        }
        assert forall|j: int, x: IdKey|
            0 <= j < nws.len() && #[trigger] nws[j].holds(x) implies x.2 < self.const_id.counter() by {
            if x != k {
                assert(ws[j].holds(x));
            }
        }
        let ghost ps = self.activities_from_threads@;
        assert forall|p: int| 0 <= p < ps.len() implies !held_by_any(nws, (#[trigger] ps[p]).id.id_key()) by {
            assert(old(self).pending_activities()[p].id.id_key() != k);
            if held_by_any(nws, ps[p].id.id_key()) {
                assert(held_by_any(ws, ps[p].id.id_key()));
            }
        }
        assert forall|x: IdKey| #[trigger] self.local_events@.contains_key(x) implies !held_by_any(nws, x) by {
            assert(old(self).local_events@.contains_key(x));
            if held_by_any(nws, x) {
                assert(held_by_any(ws, x));
            }
        }
        i
    }

    /// Places the oldest pending activity, if any, on the least loaded
    /// worker together with the events parked for it, and returns that
    /// worker's index.
    pub fn distribute_next_activity(&mut self) -> (r: Option<usize>)
        requires
            old(self).inv(),
        ensures
            final(self).inv(),
            old(self).pending_activities().len() == 0 ==> r.is_none() && *final(self) == *old(self),
            old(self).pending_activities().len() > 0 ==> r.is_some() && {
                let i = r.unwrap() as int;
                let a = old(self).pending_activities()[0];
                &&& is_least_loaded(old(self).workers(), i)
                &&& !held_by_any(old(self).workers(), a.id.id_key())
                &&& placed(old(self).workers(), final(self).workers(), i, a, queued(old(self).waiting(), a.id.id_key()))
                &&& final(self).waiting() == old(self).waiting().remove(a.id.id_key())
                &&& final(self).pending_activities() == old(self).pending_activities().drop_first()
            },
            final(self).pending_events() == old(self).pending_events(),
            final(self).id_source() == old(self).id_source(),
            final(self).is_single() == old(self).is_single(),
    {
        if self.activities_from_threads.len() == 0 {
            return None;
        }
        let ghost ws = self.threads@;
        let ghost ps = self.activities_from_threads@;
        let a = self.activities_from_threads.remove(0);
        assert(ps[0] == a);
        assert(self.activities_from_threads@ =~= ps.drop_first());
        assert forall|p: int| 0 <= p < self.activities_from_threads@.len() implies
            (#[trigger] self.activities_from_threads@[p]).id.id_key() != a.id.id_key() by {
            assert(self.activities_from_threads@[p] == ps[p + 1]);
        }
        assert forall|p: int, q: int|
            0 <= p < self.activities_from_threads@.len() && 0 <= q < self.activities_from_threads@.len() && p != q
            implies (#[trigger] self.activities_from_threads@[p]).id.id_key()
            != (#[trigger] self.activities_from_threads@[q]).id.id_key() by {
            assert(self.activities_from_threads@[p] == ps[p + 1]);
            assert(self.activities_from_threads@[q] == ps[q + 1]);
        }
        assert forall|p: int| 0 <= p < self.activities_from_threads@.len() implies
            (#[trigger] self.activities_from_threads@[p]).id.id_key().2 < self.const_id.counter()
            && !held_by_any(ws, self.activities_from_threads@[p].id.id_key()) by {
            assert(self.activities_from_threads@[p] == ps[p + 1]);
        }
        let r = self.distribute_activity(a);
        Some(r)
    }

    /// Places every pending activity, oldest first, each on the worker that
    /// is least loaded at that moment, together with the events parked for it.
    pub fn handle_thread_activity(&mut self)
        requires
            old(self).inv(),
        ensures
            final(self).inv(),
            final(self).pending_activities().len() == 0,
            activities_placed(
                old(self).workers(),
                old(self).waiting(),
                old(self).pending_activities(),
                final(self).workers(),
                final(self).waiting(),
            ),
            exists|tws: Seq<Seq<ExecutorQueues>>, tw: Seq<EventMap>, rs: Seq<int>|
                #![trigger placement_steps(tws, tw, rs, old(self).pending_activities())]
                placement_steps(tws, tw, rs, old(self).pending_activities()) && tws[0] == old(self).workers()
                    && tw[0] == old(self).waiting() && tws.last() == final(self).workers() && tw.last()
                    == final(self).waiting(),
            final(self).pending_events() == old(self).pending_events(),
            final(self).id_source() == old(self).id_source(),
            final(self).is_single() == old(self).is_single(),
    {
        let ghost ops = self.activities_from_threads@;
        let ghost ows = self.threads@;
        let ghost ow = self.local_events@;
        let ghost mut n: int = 0;
        let ghost mut tws: Seq<Seq<ExecutorQueues>> = seq![ows];
        let ghost mut tw: Seq<EventMap> = seq![ow];
        let ghost mut rs: Seq<int> = Seq::empty();
        while self.activities_from_threads.len() > 0
            invariant
                self.inv(),
                0 <= n <= ops.len(),
                self.activities_from_threads@ == ops.skip(n),
                placement_steps(tws, tw, rs, ops.take(n)),
                tws[0] == ows,
                tw[0] == ow,
                tws[n] == self.threads@,
                tw[n] == self.local_events@,
                forall|p: int, q: int|
                    0 <= p < ops.len() && 0 <= q < ops.len() && p != q ==> (#[trigger] ops[p]).id.id_key()
                        != (#[trigger] ops[q]).id.id_key(),
                activities_placed(ows, ow, ops.take(n), self.threads@, self.local_events@),
                self.events_from_threads@ == old(self).events_from_threads@,
                self.const_id == old(self).const_id,
                self.single_threaded == old(self).single_threaded,
            decreases self.activities_from_threads.len(),
        {
            let ghost ws = self.threads@;
            let ghost w = self.local_events@;
            let ghost ps = self.activities_from_threads@;
            let ghost a = ps[0];
            assert(ps[0] == ops[n]);
            let r = self.distribute_next_activity().unwrap();
            proof {
                lemma_place_one(ows, ow, ops, n, ws, w, self.threads@, self.local_events@, r as int, a);
                let ntws = tws.push(self.threads@);
                let ntw = tw.push(self.local_events@);
                let nrs = rs.push(r as int);
                let pre = ops.take(n);
                let post = ops.take(n + 1);
                assert forall|p: int| 0 <= p < post.len() implies #[trigger] placement_step(ntws, ntw, nrs, post, p)
                by {
                    assert(ntws[p] == tws[p]);
                    assert(ntw[p] == tw[p]);
                    if p < n {
                        assert(placement_step(tws, tw, rs, pre, p));
                        assert(post[p] == pre[p]);
                        assert(nrs[p] == rs[p]);
                        assert(ntws[p + 1] == tws[p + 1]);
                        assert(ntw[p + 1] == tw[p + 1]);
                    } else {
                        assert(post[p] == a);
                        assert(nrs[p] == r as int);
                        assert(ntws[p + 1] == self.threads@);
                        assert(ntw[p + 1] == self.local_events@);
                    }
                }
                assert(post.len() == n + 1);
                assert(ntws.len() == post.len() + 1);
                assert(ntw.len() == post.len() + 1);
                assert(nrs.len() == post.len());
                assert(placement_steps(ntws, ntw, nrs, post));
                tws = ntws;
                tw = ntw;
                rs = nrs;
                n = n + 1;
                assert(self.activities_from_threads@ =~= ops.skip(n));
            }
        }
        assert(ops.take(n) =~= ops);
        assert(placement_steps(tws, tw, rs, ops));
    }

    /// Routes `e` to the worker that holds its destination, or parks it
    /// when no worker does.
    fn distribute_event(&mut self, e: Event)
        requires
            old(self).inv(),
        ensures
            final(self).inv(),
            events_routed(old(self).workers(), old(self).waiting(), seq![e], final(self).workers(), final(self).waiting()),
            final(self).pending_activities() == old(self).pending_activities(),
            final(self).pending_events() == old(self).pending_events(),
            final(self).id_source() == old(self).id_source(),
            final(self).is_single() == old(self).is_single(),
    {
        let ghost ws = self.threads@;
        let ghost ow = self.local_events@;
        let k = e.dst_key();
        let ghost ge = e;
        proof {
            lemma_for_dst_single(ge);
        }
        let mut i: usize = 0;
        while i < self.threads.len()
            invariant
                self.inv(),
                ws == self.threads@,
                ow == self.local_events@,
                *self == *old(self),
                ge == e,
                k == e.dst_spec().id_key(),
                i <= ws.len(),
                forall|j: int| 0 <= j < i ==> !(#[trigger] ws[j]).holds(k),
            decreases ws.len() - i,
        {
            if self.threads[i].has_activity(&k) {
                self.threads[i].push_event(k, e);
                proof {
                    let nws = self.threads@;
                    lemma_for_dst_single(ge);
                    assert(held_by_any(ws, k));
                    let r = route(ws, k);
                    assert(ws[r].holds(k));
                    assert(r == i);
                    assert forall|j: int| 0 <= j < ws.len() implies {
                        &&& (#[trigger] nws[j]).runnable() == ws[j].runnable()
                        &&& nws[j].suspended() == ws[j].suspended()
                        &&& nws[j].running() == ws[j].running()
                    } by {
                        if j != i {
                            assert(nws[j] == ws[j]);
                        }
                    }
                    assert forall|j: int, x: IdKey| 0 <= j < ws.len() implies #[trigger] queued(nws[j].events(), x) == routed_to(ws, seq![ge], j, x) by {
                        if j != i {
                            assert(nws[j] == ws[j]);
                        }
                        if x == k {
                            assert(queued(nws[j].events(), x) =~= routed_to(ws, seq![ge], j, x));
                        } else {
                            assert(queued(nws[j].events(), x) =~= routed_to(ws, seq![ge], j, x));
                        }
                    }
                    assert forall|x: IdKey| #[trigger] queued(self.local_events@, x) == parked(ws, ow, seq![ge], x) by {
                        if x == k {
                        } else {
                            assert(queued(self.local_events@, x) =~= parked(ws, ow, seq![ge], x));
                        }
                    }
                    assert forall|j: int| 0 <= j < nws.len() implies (#[trigger] nws[j]).inv() by {
                        if j != i {
                            assert(nws[j] == ws[j]);
                        }
                    }
                    assert forall|j: int, x: IdKey| 0 <= j < nws.len() implies #[trigger] nws[j].holds(x) == ws[j].holds(x) by {
                        if j != i {
                            assert(nws[j] == ws[j]);
                        }
                    }
                    assert forall|x: IdKey| held_by_any(nws, x) implies held_by_any(ws, x) by {
                        let j = choose|j: int| 0 <= j < nws.len() && #[trigger] nws[j].holds(x);
                        assert(ws[j].holds(x));
                    }
                }
                return;
            }
            i = i + 1;
        }
        self.local_events.insert(k, e);
        proof {
            assert(!held_by_any(ws, k));
            assert forall|j: int, x: IdKey| 0 <= j < ws.len() implies #[trigger] queued(ws[j].events(), x) == routed_to(ws, seq![ge], j, x) by {
                assert(queued(ws[j].events(), x) =~= routed_to(ws, seq![ge], j, x));
            }
            assert forall|x: IdKey| #[trigger] queued(self.local_events@, x) == parked(ws, ow, seq![ge], x) by {
                assert(queued(self.local_events@, x) =~= parked(ws, ow, seq![ge], x));
            }
        }
    }

    /// Routes every pending event, oldest first.
    pub fn handle_thread_events(&mut self)
        requires
            old(self).inv(),
        ensures
            final(self).inv(),
            final(self).pending_events().len() == 0,
            events_routed(
                old(self).workers(),
                old(self).waiting(),
                old(self).pending_events(),
                final(self).workers(),
                final(self).waiting(),
            ),
            final(self).pending_activities() == old(self).pending_activities(),
            final(self).id_source() == old(self).id_source(),
            final(self).is_single() == old(self).is_single(),
    {
        let ghost oes = self.events_from_threads@;
        let ghost ows = self.threads@;
        let ghost ow = self.local_events@;
        let ghost mut n: int = 0;
        proof {
            assert forall|i: int, k: IdKey| 0 <= i < ows.len() implies #[trigger] queued(ows[i].events(), k) == routed_to(ows, oes.take(0), i, k) by {
                assert(for_dst(oes.take(0), k) =~= Seq::<Event>::empty());
                assert(queued(ows[i].events(), k) =~= routed_to(ows, oes.take(0), i, k));
            }
            assert forall|k: IdKey| #[trigger] queued(ow, k) == parked(ows, ow, oes.take(0), k) by {
                assert(for_dst(oes.take(0), k) =~= Seq::<Event>::empty());
                assert(queued(ow, k) =~= parked(ows, ow, oes.take(0), k));
            }
        }
        while self.events_from_threads.len() > 0
            invariant
                self.inv(),
                0 <= n <= oes.len(),
                self.events_from_threads@ == oes.skip(n),
                events_routed(ows, ow, oes.take(n), self.threads@, self.local_events@),
                forall|i: int, j: int, k: IdKey|
                    0 <= i < ows.len() && 0 <= j < ows.len() && i != j && #[trigger] ows[i].holds(k)
                        ==> !#[trigger] ows[j].holds(k),
                self.activities_from_threads@ == old(self).activities_from_threads@,
                self.const_id == old(self).const_id,
                self.single_threaded == old(self).single_threaded,
            decreases self.events_from_threads.len(),
        {
            let ghost ws = self.threads@;
            let ghost w = self.local_events@;
            let e = self.events_from_threads.remove(0);
            assert(e == oes[n]);
            self.distribute_event(e);
            proof {
                let nws = self.threads@;
                let nw = self.local_events@;
                let pre = oes.take(n);
                let post = oes.take(n + 1);
                assert(post =~= pre.push(e));
                assert forall|k: IdKey| route(ws, k) == route(ows, k) by {
                    assert forall|i: int| 0 <= i < ows.len() implies (#[trigger] ows[i]).holds(k) == ws[i].holds(k) by {
                        assert(ws[i].runnable() == ows[i].runnable());
                    }
                    lemma_route_same(ows, ws, k);
                }
                lemma_for_dst_single(e);
                assert forall|i: int, k: IdKey| 0 <= i < ows.len() implies #[trigger] queued(nws[i].events(), k) == routed_to(ows, post, i, k) by {
                    lemma_for_dst_push(pre, e, k);
                    assert(queued(ws[i].events(), k) == routed_to(ows, pre, i, k));
                    assert(queued(nws[i].events(), k) == routed_to(ws, seq![e], i, k));
                    assert(queued(nws[i].events(), k) =~= routed_to(ows, post, i, k));
                }
                assert forall|k: IdKey| #[trigger] queued(nw, k) == parked(ows, ow, post, k) by {
                    lemma_for_dst_push(pre, e, k);
                    assert(queued(w, k) == parked(ows, ow, pre, k));
                    assert(queued(nw, k) == parked(ws, w, seq![e], k));
                    assert(queued(nw, k) =~= parked(ows, ow, post, k));
                }
                assert forall|i: int| 0 <= i < ows.len() implies {
                    &&& (#[trigger] nws[i]).runnable() == ows[i].runnable()
                    &&& nws[i].suspended() == ows[i].suspended()
                    &&& nws[i].running() == ows[i].running()
                } by {
                    assert(ws[i].runnable() == ows[i].runnable());
                    assert(nws[i].runnable() == ws[i].runnable());
                }
                n = n + 1;
                assert(self.events_from_threads@ =~= oes.skip(n));
            }
        }
        assert(oes.take(n) =~= oes);
    }

    /// One round of the coordinator: place every pending activity, then
    /// route every pending event.
    pub fn run_once(&mut self)
        requires
            old(self).inv(),
        ensures
            final(self).inv(),
            final(self).pending_activities().len() == 0,
            final(self).pending_events().len() == 0,
            exists|tws: Seq<Seq<ExecutorQueues>>, tw: Seq<EventMap>, rs: Seq<int>|
                #![trigger placement_steps(tws, tw, rs, old(self).pending_activities())]
                placement_steps(tws, tw, rs, old(self).pending_activities()) && tws[0] == old(self).workers()
                    && tw[0] == old(self).waiting() && activities_placed(
                    old(self).workers(),
                    old(self).waiting(),
                    old(self).pending_activities(),
                    tws.last(),
                    tw.last(),
                ) && events_routed(tws.last(), tw.last(), old(self).pending_events(), final(self).workers(), final(self).waiting()),
            final(self).id_source() == old(self).id_source(),
            final(self).is_single() == old(self).is_single(),
    {
        self.handle_thread_activity();
        let ghost mws = self.threads@;
        let ghost mw = self.local_events@;
        self.handle_thread_events();
        proof {
            let ps = old(self).pending_activities();
            let (tws, tw, rs) = choose|tws: Seq<Seq<ExecutorQueues>>, tw: Seq<EventMap>, rs: Seq<int>|
                #![trigger placement_steps(tws, tw, rs, ps)]
                placement_steps(tws, tw, rs, ps) && tws[0] == old(self).workers() && tw[0] == old(self).waiting()
                    && tws.last() == mws && tw.last() == mw;
            assert(placement_steps(tws, tw, rs, ps));
        }
        assert(events_routed(mws, mw, old(self).pending_events(), self.workers(), self.waiting()));
    }

    /// Whether every worker is drained and both ingest queues are empty.
    pub fn done(&self) -> (r: bool)
        requires
            self.inv(),
        ensures
            r == (self.pending_activities().len() == 0 && self.pending_events().len() == 0
                && forall|i: int| 0 <= i < self.workers().len() ==> (#[trigger] self.workers()[i]).drained()),
    {
        if self.activities_from_threads.len() > 0 || self.events_from_threads.len() > 0 {
            return false;
        }
        let mut i: usize = 0;
        while i < self.threads.len()
            invariant
                self.inv(),
                i <= self.threads@.len(),
                forall|j: int| 0 <= j < i ==> (#[trigger] self.threads@[j]).drained(),
            decreases self.threads@.len() - i,
        {
            if !self.threads[i].queues_empty() {
                assert(!self.workers()[i as int].drained());
                return false;
            }
            i = i + 1;
        }
        assert forall|j: int| 0 <= j < self.workers().len() implies (#[trigger] self.workers()[j]).drained() by {
            assert(self.threads@[j].drained());
        }
        true
    }

    /// Whether worker `w` is drained.
    pub fn worker_done(&self, w: usize) -> (r: bool)
        requires
            self.inv(),
            w < self.workers().len(),
        ensures
            r == self.workers()[w as int].drained(),
    {
        self.threads[w].queues_empty()
    }

    /// The activity worker `w` is running, if any.
    pub fn worker_running(&self, w: usize) -> (r: Option<IdKey>)
        requires
            w < self.workers().len(),
        ensures
            r == self.workers()[w as int].running(),
    {
        self.threads[w].running_key()
    }

    /// Chooses what worker `w` runs next (see `ExecutorQueues::next_step`).
    pub fn next_step(&mut self, w: usize) -> (r: Step)
        requires
            old(self).inv(),
            w < old(self).workers().len(),
            old(self).workers()[w as int].running().is_none(),
        ensures
            final(self).inv(),
            next_step_post(old(self).workers()[w as int], final(self).workers()[w as int], r),
            final(self).workers().len() == old(self).workers().len(),
            forall|j: int| 0 <= j < old(self).workers().len() && j != w ==> final(self).workers()[j] == old(self).workers()[j],
            final(self).pending_activities() == old(self).pending_activities(),
            final(self).pending_events() == old(self).pending_events(),
            final(self).waiting() == old(self).waiting(),
            final(self).id_source() == old(self).id_source(),
            final(self).is_single() == old(self).is_single(),
    {
        let r = self.threads[w].next_step();
        proof {
            let o = old(self).threads@[w as int];
            let n = self.threads@[w as int];
            assert forall|x: IdKey| #[trigger] n.holds(x) implies o.holds(x) by {
                match r {
                    Step::Process(a, e) => {},
                    Step::Initialize(a) => {},
                    _ => {},
                }
            }
            lemma_worker_shrinks(*old(self), *self, w as int);
        }
        r
    }

    /// Hands back activity `a`, whose `initialize` on worker `w` returned `s`
    /// (see `ExecutorQueues::after_initialize`).
    pub fn after_initialize(&mut self, w: usize, a: ActivityWrapper, s: State) -> (r: Step)
        requires
            old(self).inv(),
            w < old(self).workers().len(),
            old(self).workers()[w as int].running() == Some(a.id.id_key()),
        ensures
            final(self).inv(),
            after_initialize_post(old(self).workers()[w as int], final(self).workers()[w as int], a, s, r),
            final(self).workers().len() == old(self).workers().len(),
            forall|j: int| 0 <= j < old(self).workers().len() && j != w ==> final(self).workers()[j] == old(self).workers()[j],
            final(self).pending_activities() == old(self).pending_activities(),
            final(self).pending_events() == old(self).pending_events(),
            final(self).waiting() == old(self).waiting(),
            final(self).id_source() == old(self).id_source(),
            final(self).is_single() == old(self).is_single(),
    {
        let ghost ga = a;
        let r = self.threads[w].after_initialize(a, s);
        proof {
            let o = old(self).threads@[w as int];
            let n = self.threads@[w as int];
            assert forall|x: IdKey| #[trigger] n.holds(x) implies o.holds(x) by {
                if x == ga.id.id_key() {
                    assert(o.running() == Some(x));
                }
            }
            lemma_worker_shrinks(*old(self), *self, w as int);
        }
        r
    }

    /// Hands back activity `a`, whose `process` on worker `w` returned `s`
    /// (see `ExecutorQueues::after_process`).
    pub fn after_process(&mut self, w: usize, a: ActivityWrapper, s: State) -> (r: Step)
        requires
            old(self).inv(),
            w < old(self).workers().len(),
            old(self).workers()[w as int].running() == Some(a.id.id_key()),
        ensures
            final(self).inv(),
            after_process_post(old(self).workers()[w as int], final(self).workers()[w as int], a, s, r),
            final(self).workers().len() == old(self).workers().len(),
            forall|j: int| 0 <= j < old(self).workers().len() && j != w ==> final(self).workers()[j] == old(self).workers()[j],
            final(self).pending_activities() == old(self).pending_activities(),
            final(self).pending_events() == old(self).pending_events(),
            final(self).waiting() == old(self).waiting(),
            final(self).id_source() == old(self).id_source(),
            final(self).is_single() == old(self).is_single(),
    {
        let ghost ga = a;
        let r = self.threads[w].after_process(a, s);
        proof {
            let o = old(self).threads@[w as int];
            let n = self.threads@[w as int];
            assert forall|x: IdKey| #[trigger] n.holds(x) implies o.holds(x) by {
                if x == ga.id.id_key() {
                    assert(o.running() == Some(x));
                }
            }
            lemma_worker_shrinks(*old(self), *self, w as int);
        }
        r
    }

    /// Sends `e` from an activity running on worker `w`. With a single
    /// worker the event is queued there. Otherwise, when `w` holds the
    /// destination, the event is delivered at once, after every event sent
    /// before it; when it does not, the event waits for the coordinator.
    pub fn send_from_worker(&mut self, w: usize, e: Event)
        requires
            old(self).inv(),
            w < old(self).workers().len(),
        ensures
            final(self).inv(),
            final(self).pending_activities() == old(self).pending_activities(),
            final(self).id_source() == old(self).id_source(),
            final(self).is_single() == old(self).is_single(),
            worker_send_post(*old(self), *final(self), w, e),
    {
        let k = e.dst_key();
        if self.single_threaded {
            self.threads[w].push_event(k, e);
            proof {
                let o = old(self).threads@[w as int];
                let n = self.threads@[w as int];
                assert forall|x: IdKey| #[trigger] n.holds(x) implies o.holds(x) by {}
                lemma_worker_shrinks(*old(self), *self, w as int);
            }
        } else if self.threads[w].has_activity(&k) {
            self.events_from_threads.push(e);
            self.handle_thread_events();
        } else {
            self.events_from_threads.push(e);
        }
    }

    /// Worker `w`, to inspect.
    pub fn worker(&self, w: usize) -> (r: &ExecutorQueues)
        requires
            w < self.workers().len(),
        ensures
            *r == self.workers()[w as int],
    {
        &self.threads[w]
    }

    /// The number of submitted activities not yet placed.
    pub fn pending_activity_count(&self) -> (r: usize)
        ensures
            r == self.pending_activities().len(),
    {
        self.activities_from_threads.len()
    }

    /// The number of sent events not yet routed.
    pub fn pending_event_count(&self) -> (r: usize)
        ensures
            r == self.pending_events().len(),
    {
        self.events_from_threads.len()
    }

    /// The events parked for destinations that no worker holds.
    pub fn waiting_events(&self) -> (r: &EventQueue)
        ensures
            r@ == self.waiting(),
    {
        &self.local_events
    }

    /// The identity of this constellation, with its counter.
    pub fn identifier(&self) -> (r: ConstellationIdentifier)
        ensures
            r == self.id_source(),
    {
        self.const_id.clone()
    }
}


/// Every activity the coordinator knows of is in exactly one place: on one
/// worker only, and there in exactly one of the runnable map, the suspended
/// map and the running slot.
pub proof fn lemma_single_residence(h: MultiThreadHelper, k: IdKey)
    requires
        h.inv(),
    ensures
        forall|i: int, j: int|
            0 <= i < h.workers().len() && 0 <= j < h.workers().len() && i != j && #[trigger] h.workers()[i].holds(k)
                ==> !#[trigger] h.workers()[j].holds(k),
        forall|i: int| 0 <= i < h.workers().len() && #[trigger] h.workers()[i].holds(k) ==> {
            let w = h.workers()[i];
            let r = w.runnable().contains_key(k);
            let s = w.suspended().contains_key(k);
            let f = w.running() == Some(k);
            (r && !s && !f) || (!r && s && !f) || (!r && !s && f)
        },
{
    assert forall|i: int| 0 <= i < h.workers().len() && #[trigger] h.workers()[i].holds(k) implies {
        let w = h.workers()[i];
        let r = w.runnable().contains_key(k);
        let s = w.suspended().contains_key(k);
        let f = w.running() == Some(k);
        (r && !s && !f) || (!r && s && !f) || (!r && !s && f)
    } by {
        assert(h.workers()[i].inv());
    }
}


/// Every worker of a well formed coordinator is well formed.
pub proof fn lemma_workers_well_formed(h: MultiThreadHelper)
    requires
        h.inv(),
    ensures
        forall|i: int| 0 <= i < h.workers().len() ==> (#[trigger] h.workers()[i]).inv(),
{
}

} // verus!
