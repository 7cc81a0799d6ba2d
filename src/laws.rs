//! Properties that hold across several operations of the scheduler.
use vstd::prelude::*;
use crate::activity::State;
use crate::activity_identifier::{ActivityIdentifier, IdKey};
use crate::activity_wrapper::ActivityWrapper;
use crate::constellation_identifier::ConstellationIdentifier;
use crate::event::Event;
use crate::event_queue::{popped, pushed, queued};
use crate::executor::{after_initialize_post, ExecutorQueues, Step};
use crate::tables::EventMap;
use crate::thread_helper::{
    activities_placed, events_routed, for_dst, held_by_any, is_least_loaded, lemma_for_dst_push, lemma_route_same,
    lemma_single_residence, lemma_workers_well_formed, placed, worker_send_post, placement_step, placement_steps, route, MultiThreadHelper,
};

verus! {

/// `ids` were made one after another by `ActivityIdentifier::new`, from the
/// identifier states `cs[0]`, `cs[1]`, ...
pub open spec fn generated_in_turn(cs: Seq<ConstellationIdentifier>, ids: Seq<ActivityIdentifier>) -> bool {
    &&& cs.len() == ids.len() + 1
    &&& forall|t: int| 0 <= t < ids.len() ==> {
        &&& (#[trigger] ids[t]).constellation_id == cs[t].constellation_id
        &&& ids[t].node_info == cs[t].node_info
        &&& ids[t].activity_id == cs[t].counter()
        &&& cs[t + 1].counter() == cs[t].counter() + 1
        &&& cs[t + 1].constellation_id == cs[t].constellation_id
        &&& cs[t + 1].node_info == cs[t].node_info
    }
}

/// Identifiers generated one after another by one constellation never
/// repeat: their triples are pairwise distinct.
pub proof fn lemma_identifiers_unique(cs: Seq<ConstellationIdentifier>, ids: Seq<ActivityIdentifier>)
    requires
        generated_in_turn(cs, ids),
    ensures
        forall|s: int, t: int| 0 <= s < ids.len() && 0 <= t < ids.len() && s != t ==> (#[trigger] ids[s]).id_key()
            != (#[trigger] ids[t]).id_key(),
{
    assert forall|t: int| 0 <= t <= ids.len() implies #[trigger] cs[t].counter() == cs[0].counter() + t by {
        lemma_counter_steps(cs, ids, t);
    }
    assert forall|s: int, t: int| 0 <= s < ids.len() && 0 <= t < ids.len() && s != t implies (#[trigger] ids[s]).id_key()
        != (#[trigger] ids[t]).id_key() by {
        assert(cs[s].counter() == cs[0].counter() + s);
        assert(cs[t].counter() == cs[0].counter() + t);
    }
}

proof fn lemma_counter_steps(cs: Seq<ConstellationIdentifier>, ids: Seq<ActivityIdentifier>, t: int)
    requires
        generated_in_turn(cs, ids),
        0 <= t <= ids.len(),
    ensures
        cs[t].counter() == cs[0].counter() + t,
    decreases t,
{
    if t > 0 {
        lemma_counter_steps(cs, ids, t - 1);
        assert(ids[t - 1].activity_id == cs[t - 1].counter());
    }
}

/// Two events sent one after the other to the same destination, and routed
/// in one round, are delivered in that order: the destination's list ends
/// with the first, then the second, on the worker that holds it or in the
/// parking queue.
pub proof fn lemma_send_order_kept(
    ows: Seq<ExecutorQueues>,
    ow: EventMap,
    earlier: Seq<Event>,
    e1: Event,
    e2: Event,
    ws: Seq<ExecutorQueues>,
    w: EventMap,
)
    requires
        e1.dst_spec().id_key() == e2.dst_spec().id_key(),
        events_routed(ows, ow, earlier.push(e1).push(e2), ws, w),
    ensures
        ({
            let k = e1.dst_spec().id_key();
            let r = route(ows, k);
            let before = if r >= 0 {
                queued(ows[r].events(), k)
            } else {
                queued(ow, k)
            };
            let after = if r >= 0 {
                queued(ws[r].events(), k)
            } else {
                queued(w, k)
            };
            after == before + for_dst(earlier, k) + seq![e1, e2]
        }),
{
    let k = e1.dst_spec().id_key();
    lemma_for_dst_push(earlier, e1, k);
    lemma_for_dst_push(earlier.push(e1), e2, k);
    let r = route(ows, k);
    if r >= 0 {
        assert(0 <= r < ows.len()) by {
            assert(held_by_any(ows, k));
        }
        assert(queued(ws[r].events(), k) == queued(ows[r].events(), k) + for_dst(earlier.push(e1).push(e2), k));
    } else {
        assert(queued(w, k) == queued(ow, k) + for_dst(earlier.push(e1).push(e2), k));
    }
    assert(for_dst(earlier, k).push(e1).push(e2) =~= for_dst(earlier, k) + seq![e1, e2]);
}

/// An event queue gives back the events of one destination in the order
/// they were queued.
pub proof fn lemma_queue_first_in_first_out(m: EventMap, k: IdKey, e1: Event, e2: Event)
    requires
        !m.contains_key(k),
    ensures
        ({
            let m2 = pushed(pushed(m, k, e1), k, e2);
            &&& m2[k][0] == e1
            &&& popped(m2, k)[k][0] == e2
            &&& !popped(popped(m2, k), k).contains_key(k)
        }),
{
    let m2 = pushed(pushed(m, k, e1), k, e2);
    assert(m2[k] =~= seq![e1, e2]);
    assert(popped(m2, k)[k] =~= seq![e2]);
}

/// An activity whose `initialize` finishes and that expects no events is
/// handed to cleanup once, and is then held nowhere on its worker, so it can
/// never be handed out again.
pub proof fn lemma_finished_activity_cleaned_once(o: ExecutorQueues, n: ExecutorQueues, a: ActivityWrapper, r: Step)
    requires
        o.inv(),
        o.running() == Some(a.id.id_key()),
        !a.expects_events,
        after_initialize_post(o, n, a, State::FINISH, r),
    ensures
        r == Step::Cleanup(a),
        !n.holds(a.id.id_key()),
{
}

/// An event whose destination no worker holds waits in the parking queue,
/// after the events already parked for it; no worker receives it, and the
/// events of every other destination are routed as usual.
pub proof fn lemma_unknown_destination_parks(
    ows: Seq<ExecutorQueues>,
    ow: EventMap,
    s: Seq<Event>,
    ws: Seq<ExecutorQueues>,
    w: EventMap,
    k: IdKey,
)
    requires
        events_routed(ows, ow, s, ws, w),
        !held_by_any(ows, k),
    ensures
        queued(w, k) == queued(ow, k) + for_dst(s, k),
        forall|i: int| 0 <= i < ows.len() ==> queued((#[trigger] ws[i]).events(), k) == queued(ows[i].events(), k),
{
    assert(route(ows, k) == -1);
    assert forall|i: int| 0 <= i < ows.len() implies queued((#[trigger] ws[i]).events(), k) == queued(ows[i].events(), k) by {
        assert(queued(ws[i].events(), k) == queued(ows[i].events(), k) + Seq::<Event>::empty());
        assert(queued(ows[i].events(), k) + Seq::<Event>::empty() =~= queued(ows[i].events(), k));
    }
}

/// With a single worker, every submitted activity is placed on it.
pub proof fn lemma_single_worker_gets_all(
    ows: Seq<ExecutorQueues>,
    ow: EventMap,
    ps: Seq<ActivityWrapper>,
    ws: Seq<ExecutorQueues>,
    w: EventMap,
)
    requires
        ows.len() == 1,
        activities_placed(ows, ow, ps, ws, w),
    ensures
        forall|p: int| 0 <= p < ps.len() ==> ws[0].runnable().contains_key((#[trigger] ps[p]).id.id_key()),
{
    assert forall|p: int| 0 <= p < ps.len() implies ws[0].runnable().contains_key((#[trigger] ps[p]).id.id_key()) by {
        let k = ps[p].id.id_key();
        assert(held_by_any(ws, k));
        let r = route(ws, k);
        assert(ws[r].holds(k));
    }
}

/// An event sent to an activity reaches the worker that holds it: when the
/// activity is placed, events parked for it go along; events routed after
/// that go to the end of its list on that worker.
pub proof fn lemma_event_reaches_activity(
    h0: MultiThreadHelper,
    h1: MultiThreadHelper,
    h2: MultiThreadHelper,
    p: int,
)
    requires
        h1.inv(),
        activities_placed(h0.workers(), h0.waiting(), h0.pending_activities(), h1.workers(), h1.waiting()),
        events_routed(h1.workers(), h1.waiting(), h1.pending_events(), h2.workers(), h2.waiting()),
        0 <= p < h0.pending_activities().len(),
    ensures
        ({
            let k = h0.pending_activities()[p].id.id_key();
            let r = route(h2.workers(), k);
            &&& 0 <= r < h2.workers().len()
            &&& h2.workers()[r].runnable().contains_key(k)
            &&& queued(h2.workers()[r].events(), k) == queued(h0.workers()[r].events(), k) + queued(h0.waiting(), k)
                + for_dst(h1.pending_events(), k)
            &&& queued(h2.waiting(), k).len() == 0
        }),
{
    let ps = h0.pending_activities();
    let k = ps[p].id.id_key();
    let ws1 = h1.workers();
    let ws2 = h2.workers();
    assert(held_by_any(ws1, k));
    let r = route(ws1, k);
    assert(ws1[r].holds(k));
    lemma_single_residence(h1, k);
    assert forall|i: int| 0 <= i < ws1.len() implies (#[trigger] ws1[i]).holds(k) == ws2[i].holds(k) by {
        assert(ws2[i].runnable() == ws1[i].runnable());
    }
    assert(ws2[r].holds(k));
    assert(held_by_any(ws2, k));
    let r2 = route(ws2, k);
    assert(ws2[r2].holds(k));
    assert(ws1[r2].holds(k));
    assert(r2 == r);
    assert(ws1[r].runnable().contains_key(k));
    assert(ws2[r].runnable() == ws1[r].runnable());
    assert(queued(ws1[r].events(), k) == queued(h0.workers()[r].events(), k) + queued(h0.waiting(), k));
    assert(queued(ws2[r].events(), k) == queued(ws1[r].events(), k) + for_dst(h1.pending_events(), k));
    assert(!h1.waiting().contains_key(k));
    assert(queued(h2.waiting(), k) == queued(h1.waiting(), k) + Seq::<Event>::empty());
    assert(queued(h1.waiting(), k) + Seq::<Event>::empty() =~= Seq::<Event>::empty());
}


/// The loads of `ws` differ by at most one.
pub open spec fn balanced(ws: Seq<ExecutorQueues>) -> bool {
    forall|i: int, j: int|
        0 <= i < ws.len() && 0 <= j < ws.len() ==> #[trigger] ws[i].load() <= #[trigger] ws[j].load() + 1
}

/// The runnable and suspended maps of every worker of `ws` are finite.
pub open spec fn maps_finite(ws: Seq<ExecutorQueues>) -> bool {
    forall|i: int| 0 <= i < ws.len() ==> (#[trigger] ws[i]).runnable().dom().finite() && ws[i].suspended().dom().finite()
}

/// The sum of the loads of `ws`.
pub open spec fn total_load(ws: Seq<ExecutorQueues>) -> int
    decreases ws.len(),
{
    if ws.len() == 0 {
        0
    } else {
        total_load(ws.drop_last()) + ws.last().load()
    }
}

proof fn lemma_total_bump(o: Seq<ExecutorQueues>, n: Seq<ExecutorQueues>, r: int)
    requires
        o.len() == n.len(),
        0 <= r < o.len(),
        n[r].load() == o[r].load() + 1,
        forall|j: int| 0 <= j < o.len() && j != r ==> (#[trigger] n[j]).load() == o[j].load(),
    ensures
        total_load(n) == total_load(o) + 1,
    decreases o.len(),
{
    let l = o.len() - 1;
    if r == l {
        lemma_total_same(o.drop_last(), n.drop_last());
    } else {
        lemma_total_bump(o.drop_last(), n.drop_last(), r);
    }
}

proof fn lemma_total_same(o: Seq<ExecutorQueues>, n: Seq<ExecutorQueues>)
    requires
        o.len() == n.len(),
        forall|j: int| 0 <= j < o.len() ==> (#[trigger] n[j]).load() == o[j].load(),
    ensures
        total_load(n) == total_load(o),
    decreases o.len(),
{
    if o.len() > 0 {
        lemma_total_same(o.drop_last(), n.drop_last());
    }
}

/// One placement on the least loaded worker adds one to its load and keeps
/// the loads within one of each other.
proof fn lemma_place_step_loads(o: Seq<ExecutorQueues>, n: Seq<ExecutorQueues>, r: int, a: ActivityWrapper, es: Seq<Event>)
    requires
        placed(o, n, r, a, es),
        is_least_loaded(o, r),
        !held_by_any(o, a.id.id_key()),
        maps_finite(o),
        balanced(o),
    ensures
        n.len() == o.len(),
        maps_finite(n),
        balanced(n),
        total_load(n) == total_load(o) + 1,
{
    let k = a.id.id_key();
    assert(!o[r].holds(k));
    assert(o[r].runnable().dom().finite());
    assert(n[r].runnable().dom() == o[r].runnable().dom().insert(k));
    assert(n[r].load() == o[r].load() + 1);
    assert forall|j: int| 0 <= j < o.len() && j != r implies (#[trigger] n[j]).load() == o[j].load() by {
        assert(n[j] == o[j]);
    }
    lemma_total_bump(o, n, r);
    assert forall|i: int| 0 <= i < n.len() implies (#[trigger] n[i]).runnable().dom().finite() && n[i].suspended().dom().finite() by {
        if i != r {
            assert(n[i] == o[i]);
        }
    }
    assert forall|i: int, j: int| 0 <= i < n.len() && 0 <= j < n.len() implies #[trigger] n[i].load() <= #[trigger] n[j].load() + 1 by {
        if i != r {
            assert(n[i] == o[i]);
        }
        if j != r {
            assert(n[j] == o[j]);
        }
        assert(o[i].load() <= o[j].load() + 1);
        assert(o[r].load() <= o[j].load());
        assert(o[r].load() <= o[i].load());
    }
}

proof fn lemma_placement_prefix(tws: Seq<Seq<ExecutorQueues>>, tw: Seq<EventMap>, rs: Seq<int>, ps: Seq<ActivityWrapper>, t: int)
    requires
        placement_steps(tws, tw, rs, ps),
        maps_finite(tws[0]),
        balanced(tws[0]),
        0 <= t <= ps.len(),
    ensures
        tws[t].len() == tws[0].len(),
        maps_finite(tws[t]),
        balanced(tws[t]),
        total_load(tws[t]) == total_load(tws[0]) + t,
    decreases t,
{
    if t > 0 {
        lemma_placement_prefix(tws, tw, rs, ps, t - 1);
        assert(placement_step(tws, tw, rs, ps, t - 1));
        lemma_place_step_loads(tws[t - 1], tws[t], rs[t - 1], ps[t - 1], queued(tw[t - 1], ps[t - 1].id.id_key()));
    }
}

/// Placing activities one after another, each on the least loaded worker,
/// keeps the workers' loads within one of each other, and adds one to the
/// total load per activity.
pub proof fn lemma_placement_keeps_balance(
    tws: Seq<Seq<ExecutorQueues>>,
    tw: Seq<EventMap>,
    rs: Seq<int>,
    ps: Seq<ActivityWrapper>,
)
    requires
        placement_steps(tws, tw, rs, ps),
        maps_finite(tws[0]),
        balanced(tws[0]),
    ensures
        tws.last().len() == tws[0].len(),
        balanced(tws.last()),
        total_load(tws.last()) == total_load(tws[0]) + ps.len(),
{
    lemma_placement_prefix(tws, tw, rs, ps, ps.len() as int);
}

proof fn lemma_total_bounds(ws: Seq<ExecutorQueues>, lo: int, hi: int)
    requires
        forall|i: int| 0 <= i < ws.len() ==> lo <= (#[trigger] ws[i]).load() <= hi,
    ensures
        ws.len() * lo <= total_load(ws) <= ws.len() * hi,
    decreases ws.len(),
{
    if ws.len() > 0 {
        let m = ws.drop_last();
        assert forall|i: int| 0 <= i < m.len() implies lo <= (#[trigger] m[i]).load() <= hi by {
            assert(m[i] == ws[i]);
        }
        lemma_total_bounds(m, lo, hi);
        let l = ws.len() as int;
        assert(l * lo == (l - 1) * lo + lo) by (nonlinear_arith);
        assert(l * hi == (l - 1) * hi + hi) by (nonlinear_arith);
    }
}

/// Among balanced workers carrying a total load of `n`, each worker's load
/// times the number of workers lies within one share of `n` either way: on
/// 4 workers with 40 activities, every worker has between 9 and 11.
pub proof fn lemma_balanced_share(ws: Seq<ExecutorQueues>, n: int)
    requires
        balanced(ws),
        total_load(ws) == n,
    ensures
        forall|i: int| 0 <= i < ws.len() ==> n - ws.len() <= ws.len() * (#[trigger] ws[i]).load() <= n + ws.len(),
{
    assert forall|i: int| 0 <= i < ws.len() implies n - ws.len() <= ws.len() * (#[trigger] ws[i]).load() <= n + ws.len() by {
        let l = ws[i].load();
        assert forall|j: int| 0 <= j < ws.len() implies l - 1 <= (#[trigger] ws[j]).load() <= l + 1 by {
            assert(ws[i].load() <= ws[j].load() + 1);
            assert(ws[j].load() <= ws[i].load() + 1);
        }
        lemma_total_bounds(ws, l - 1, l + 1);
        let w = ws.len() as int;
        assert(w * (l - 1) == w * l - w) by (nonlinear_arith);
        assert(w * (l + 1) == w * l + w) by (nonlinear_arith);
    }
}


/// A coordinator round that starts with balanced workers ends with
/// balanced workers: the pending activities are spread so that no two
/// workers' loads differ by more than one, and the total load grows by the
/// number of activities placed. Starting from idle workers, 40 activities
/// on 4 workers give every worker between 9 and 11 (`lemma_balanced_share`).
pub proof fn lemma_round_spreads_load(
    h: MultiThreadHelper,
    tws: Seq<Seq<ExecutorQueues>>,
    tw: Seq<EventMap>,
    rs: Seq<int>,
)
    requires
        h.inv(),
        balanced(h.workers()),
        placement_steps(tws, tw, rs, h.pending_activities()),
        tws[0] == h.workers(),
    ensures
        tws.last().len() == h.workers().len(),
        balanced(tws.last()),
        total_load(tws.last()) == total_load(h.workers()) + h.pending_activities().len(),
{
    lemma_workers_well_formed(h);
    lemma_placement_keeps_balance(tws, tw, rs, h.pending_activities());
}


/// The events addressed to `d` that coordinator `h` has taken in, in the
/// order they will be delivered: those queued on the worker that holds `d`
/// (parked ones, when no worker does), then those not yet routed.
pub open spec fn events_for(h: MultiThreadHelper, d: IdKey) -> Seq<Event> {
    let r = route(h.workers(), d);
    (if r >= 0 {
        queued(h.workers()[r].events(), d)
    } else {
        queued(h.waiting(), d)
    }) + for_dst(h.pending_events(), d)
}

/// With several workers, an event sent from a worker goes after every event
/// taken in before it for the same destination; the events of every other
/// destination, and where each activity is, stay as they were.
pub proof fn lemma_worker_send_appends(h0: MultiThreadHelper, h1: MultiThreadHelper, w: usize, e: Event)
    requires
        h0.inv(),
        !h0.is_single(),
        w < h0.workers().len(),
        worker_send_post(h0, h1, w, e),
    ensures
        events_for(h1, e.dst_spec().id_key()) == events_for(h0, e.dst_spec().id_key()).push(e),
        forall|x: IdKey| x != e.dst_spec().id_key() ==> #[trigger] events_for(h1, x) == events_for(h0, x),
        h1.workers().len() == h0.workers().len(),
        forall|i: int, x: IdKey| 0 <= i < h0.workers().len() ==> #[trigger] h1.workers()[i].holds(x) == h0.workers()[i].holds(x),
{
    let d = e.dst_spec().id_key();
    let ws0 = h0.workers();
    let ws1 = h1.workers();
    let pend = h0.pending_events();
    assert forall|x: IdKey| #[trigger] events_for(h1, x) == events_for(h0, x) + if x == d {
        seq![e]
    } else {
        Seq::<Event>::empty()
    } by {
        lemma_for_dst_push(pend, e, x);
        if ws0[w as int].holds(d) {
            assert forall|i: int| 0 <= i < ws0.len() implies (#[trigger] ws0[i]).holds(x) == ws1[i].holds(x) by {
                assert(ws1[i].runnable() == ws0[i].runnable());
            }
            lemma_single_residence(h0, x);
            lemma_route_same(ws0, ws1, x);
            assert(for_dst(h1.pending_events(), x) =~= Seq::<Event>::empty());
            let r = route(ws0, x);
            if r >= 0 {
                assert(held_by_any(ws0, x));
                assert(ws0[r].holds(x));
                assert(queued(ws1[r].events(), x) == queued(ws0[r].events(), x) + for_dst(pend.push(e), x));
            } else {
                assert(queued(h1.waiting(), x) == queued(h0.waiting(), x) + for_dst(pend.push(e), x));
            }
            assert(events_for(h1, x) =~= events_for(h0, x) + if x == d {
                seq![e]
            } else {
                Seq::<Event>::empty()
            });
        } else {
            assert(events_for(h1, x) =~= events_for(h0, x) + if x == d {
                seq![e]
            } else {
                Seq::<Event>::empty()
            });
        }
    }
    assert(events_for(h1, d) =~= events_for(h0, d).push(e));
    assert forall|x: IdKey| x != d implies #[trigger] events_for(h1, x) == events_for(h0, x) by {
        assert(events_for(h1, x) =~= events_for(h0, x));
    }
    assert forall|i: int, x: IdKey| 0 <= i < ws0.len() implies #[trigger] ws1[i].holds(x) == ws0[i].holds(x) by {
        if ws0[w as int].holds(d) {
            assert(ws1[i].runnable() == ws0[i].runnable());
        }
    }
}

/// Two events sent one after the other from one worker to the same
/// destination are delivered in that order.
pub proof fn lemma_worker_sends_keep_order(
    h0: MultiThreadHelper,
    h1: MultiThreadHelper,
    h2: MultiThreadHelper,
    w: usize,
    e1: Event,
    e2: Event,
)
    requires
        h0.inv(),
        h1.inv(),
        !h0.is_single(),
        h1.is_single() == h0.is_single(),
        w < h0.workers().len(),
        e1.dst_spec().id_key() == e2.dst_spec().id_key(),
        worker_send_post(h0, h1, w, e1),
        worker_send_post(h1, h2, w, e2),
    ensures
        events_for(h2, e1.dst_spec().id_key()) == events_for(h0, e1.dst_spec().id_key()) + seq![e1, e2],
{
    lemma_worker_send_appends(h0, h1, w, e1);
    lemma_worker_send_appends(h1, h2, w, e2);
    let d = e1.dst_spec().id_key();
    assert(events_for(h0, d).push(e1).push(e2) =~= events_for(h0, d) + seq![e1, e2]);
}

} // verus!
