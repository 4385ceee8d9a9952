//! What holds of a queue across operations.
//!
//! Each law is stated over the effects that the queue's operations promise
//! and is proved from those promises alone. A law that speaks of served
//! orders speaks of the record by which an order is served: the one record
//! of its id, which carries the price and timestamp of the order's last
//! insert or amend.

use vstd::prelude::*;
use vstd::multiset::Multiset;
use crate::engine::domain::OrderSide;
use crate::engine::order_index::OrderIndex;
use crate::engine::order_index::lemma_priority_in_prices;
use crate::engine::order_queues::OrderQueue;
use crate::engine::order_queues::live_only;
use crate::engine::order_queues::without_order;

verus! {

/// A queue's next pop serves a best live order: the record taken stands for
/// a live order, its payload is what the queue held for it, and no live
/// order of the queue is served before it. What the pop leaves behind is
/// served no earlier. The record taken is the only one the order had.
pub proof fn lemma_pop_serves_best<T>(pre: OrderQueue<T>, post: OrderQueue<T>, r: OrderIndex)
    requires
        pre.wf(),
        pre.pops_record(post, r),
    ensures
        pre.is_best(r),
        pre.pop_step(post, Some(pre.orders()[r.id])),
        post.orders() == pre.orders().remove(r.id),
        post.index().subset_of(pre.index().remove(r)),
        forall|q: OrderIndex| post.index().contains(q) ==> r.at_least(q),
        r == pre.record_of(r.id),
        forall|q: OrderIndex| pre.index().contains(q) && q.id == r.id ==> q == r,
{
    let mid = choose|mid: OrderQueue<T>| #[trigger]
        pre.discard_step(mid) && mid.current() == Some(r) && mid.take_step(post, mid.shown());
    mid.lemma_wf();
    pre.lemma_wf();
    assert(pre.index().contains(r));
    assert forall|q: OrderIndex| #[trigger] pre.live_record(q) implies r.at_least(q) by {
        assert(pre.dropped(mid, q) || mid.index().contains(q));
    }
}

/// What a pop returns is the order of the record it takes; it returns
/// nothing only where no order is live, and then leaves no record behind.
pub proof fn lemma_pop_names_record<T>(pre: OrderQueue<T>, post: OrderQueue<T>, best: Option<T>)
    requires
        pre.wf(),
        pre.pop_step(post, best),
    ensures
        match best {
            Some(order) => exists|r: OrderIndex| #[trigger]
                pre.pops_record(post, r) && order == pre.orders()[r.id],
            None => pre.is_idle() && post.is_idle() && post.index().len() == 0,
        },
{
    let mid = choose|mid: OrderQueue<T>| #[trigger]
        pre.discard_step(mid) && mid.take_step(post, best);
    if best is Some {
        let r = mid.current().unwrap();
        assert(pre.pops_record(post, r));
    }
}

/// What a peek returns is the order of the record it shows; it returns
/// nothing only where no order is live, and then leaves no record behind.
pub proof fn lemma_peek_names_record<T>(pre: OrderQueue<T>, post: OrderQueue<T>, best: Option<T>)
    requires
        pre.wf(),
        pre.peek_step(post, best),
    ensures
        match best {
            Some(order) => exists|r: OrderIndex| #[trigger]
                pre.peeks_record(post, r) && order == pre.orders()[r.id],
            None => pre.is_idle() && post.index().len() == 0,
        },
{
    if best is Some {
        let r = post.current().unwrap();
        assert(pre.peeks_record(post, r));
    }
}

/// A peek shows a best live order and takes nothing away.
pub proof fn lemma_peek_shows_best<T>(pre: OrderQueue<T>, post: OrderQueue<T>, r: OrderIndex)
    requires
        pre.wf(),
        pre.peeks_record(post, r),
    ensures
        pre.is_best(r),
        post.is_best(r),
        pre.peek_step(post, Some(pre.orders()[r.id])),
        post.orders() == pre.orders(),
        r == pre.record_of(r.id),
{
    post.lemma_wf();
    pre.lemma_wf();
    assert(pre.index().contains(r));
    assert forall|q: OrderIndex| #[trigger] pre.live_record(q) implies r.at_least(q) by {
        assert(pre.dropped(post, q) || post.index().contains(q));
    }
}

/// The pop that follows a peek takes the order that the peek showed.
pub proof fn lemma_pop_takes_what_peek_showed<T>(
    pre: OrderQueue<T>,
    shown: OrderQueue<T>,
    post: OrderQueue<T>,
    r: OrderIndex,
    taken: OrderIndex,
)
    requires
        pre.wf(),
        pre.peeks_record(shown, r),
        shown.pops_record(post, taken),
    ensures
        taken == r,
        post.orders() == pre.orders().remove(r.id),
{
    let mid = choose|mid: OrderQueue<T>| #[trigger]
        shown.discard_step(mid) && mid.current() == Some(taken) && mid.take_step(
            post,
            mid.shown(),
        );
}

/// A pop leaves no record behind that it had not found.
proof fn lemma_pop_shrinks<T>(pre: OrderQueue<T>, post: OrderQueue<T>, r: OrderIndex)
    requires
        pre.wf(),
        pre.pops_record(post, r),
    ensures
        post.wf(),
        post.side() == pre.side(),
        post.index().subset_of(pre.index()),
{
    lemma_pop_serves_best(pre, post, r);
    let mid = choose|mid: OrderQueue<T>| #[trigger]
        pre.discard_step(mid) && mid.current() == Some(r) && mid.take_step(post, mid.shown());
}

/// In a run of pops every state is consistent and holds only records that
/// the state before the run's `i`-th pop held.
proof fn lemma_pop_run_shrinks<T>(
    states: Seq<OrderQueue<T>>,
    records: Seq<OrderIndex>,
    i: int,
    j: int,
)
    requires
        states.len() == records.len() + 1,
        states[0].wf(),
        forall|k: int|
            0 <= k < records.len() ==> states[k].pops_record(states[k + 1], #[trigger] records[k]),
        0 <= i <= j <= records.len(),
    ensures
        states[j].wf(),
        states[j].side() == states[i].side(),
        states[j].index().subset_of(states[i].index()),
    decreases j,
{
    if j > 0 {
        lemma_pop_run_shrinks(states, records, 0, j - 1);
        if i < j {
            lemma_pop_run_shrinks(states, records, i, j - 1);
        }
        lemma_pop_shrinks(states[j - 1], states[j], records[j - 1]);
    }
}

/// Whatever inserts, cancels and amends led to a queue, the orders that a
/// run of pops takes from it come out in serving order: each is taken by
/// the one record of its id, and none is served before one that was taken
/// earlier. On the buy side prices never rise along the run, on the sell
/// side they never fall, and at one price timestamps never fall.
pub proof fn lemma_pops_in_serving_order<T>(
    states: Seq<OrderQueue<T>>,
    records: Seq<OrderIndex>,
    i: int,
    j: int,
)
    requires
        states.len() == records.len() + 1,
        states[0].wf(),
        forall|k: int|
            0 <= k < records.len() ==> states[k].pops_record(states[k + 1], #[trigger] records[k]),
        0 <= i <= j < records.len(),
    ensures
        records[i] == states[i].record_of(records[i].id),
        records[j] == states[j].record_of(records[j].id),
        records[i].at_least(records[j]),
        states[0].side() == OrderSide::Buy ==> records[i].price >= records[j].price,
        states[0].side() == OrderSide::Sell ==> records[i].price <= records[j].price,
        records[i].price == records[j].price ==> records[i].timestamp <= records[j].timestamp,
{
    lemma_pop_run_shrinks(states, records, 0, i);
    lemma_pop_run_shrinks(states, records, 0, j);
    let first = records[i];
    let later = records[j];
    lemma_pop_serves_best(states[i], states[i + 1], first);
    lemma_pop_serves_best(states[j], states[j + 1], later);
    states[i].lemma_wf();
    states[j].lemma_wf();
    if i < j {
        lemma_pop_run_shrinks(states, records, i + 1, j);
    }
    lemma_priority_in_prices(first, later);
}

/// `post` follows `pre` by one operation of the queue other than an insert.
pub open spec fn steps_without_insert<T>(pre: OrderQueue<T>, post: OrderQueue<T>) -> bool {
    ||| exists|any: u64, price: u64, ts: u64, order: T, accepted: bool| #[trigger]
        pre.amend_step(post, any, price, ts, order, accepted)
    ||| exists|any: u64, removed: bool| #[trigger] pre.cancel_step(post, any, removed)
    ||| exists|best: Option<T>| #[trigger] pre.peek_step(post, best)
    ||| exists|best: Option<T>| #[trigger] pre.pop_step(post, best)
    ||| exists|order: T, replaced: bool| #[trigger] pre.modify_step(post, order, replaced)
}

/// `post` follows `pre` by an insert of order `id`, accepted or not.
pub open spec fn steps_by_insert<T>(pre: OrderQueue<T>, post: OrderQueue<T>, id: u64) -> bool {
    exists|price: u64, ts: u64, order: T, accepted: bool| #[trigger]
        pre.insert_step(post, id, price, ts, order, accepted)
}

/// `post` follows `pre` by one operation of the queue that is not an insert
/// of order `id`.
pub open spec fn steps_aside<T>(pre: OrderQueue<T>, post: OrderQueue<T>, id: u64) -> bool {
    ||| steps_without_insert(pre, post)
    ||| exists|other: u64| other != id && #[trigger] steps_by_insert(pre, post, other)
}

/// An order that is not live stays so through any operation but an insert
/// of its id.
pub proof fn lemma_step_aside_keeps_out<T>(pre: OrderQueue<T>, post: OrderQueue<T>, id: u64)
    requires
        pre.wf(),
        !pre.is_live(id),
        steps_aside(pre, post, id),
    ensures
        post.wf(),
        !post.is_live(id),
{
    if exists|best: Option<T>| #[trigger] pre.pop_step(post, best) {
        let best = choose|best: Option<T>| #[trigger] pre.pop_step(post, best);
        let mid = choose|mid: OrderQueue<T>| #[trigger]
            pre.discard_step(mid) && mid.take_step(post, best);
    }
}

/// A peek or a pop never serves an order that is not live.
pub proof fn lemma_dead_order_not_served<T>(
    pre: OrderQueue<T>,
    post: OrderQueue<T>,
    r: OrderIndex,
    id: u64,
)
    requires
        pre.wf(),
        !pre.is_live(id),
        pre.peeks_record(post, r) || pre.pops_record(post, r),
    ensures
        r.id != id,
{
    if pre.pops_record(post, r) {
        lemma_pop_serves_best(pre, post, r);
    } else {
        lemma_peek_shows_best(pre, post, r);
    }
}

/// After a cancel of order `id` has succeeded, no peek and no pop serves
/// that order, however many operations follow and whether or not a sweep
/// has run, until the id is inserted anew: in every state `trace[k]` that
/// follows the cancel by operations other than an insert of `id`, the order
/// is not live and a peek or pop serves another.
pub proof fn lemma_cancelled_stays_out<T>(
    before: OrderQueue<T>,
    trace: Seq<OrderQueue<T>>,
    id: u64,
    k: int,
)
    requires
        before.wf(),
        trace.len() > 0,
        before.cancel_step(trace[0], id, true),
        forall|n: int| 0 <= n < trace.len() - 1 ==> steps_aside(#[trigger] trace[n], trace[n + 1], id),
        0 <= k < trace.len(),
    ensures
        trace[k].wf(),
        !trace[k].is_live(id),
        forall|post: OrderQueue<T>, r: OrderIndex|
            trace[k].peeks_record(post, r) || trace[k].pops_record(post, r) ==> r.id != id,
    decreases k,
{
    if k > 0 {
        lemma_cancelled_stays_out(before, trace, id, k - 1);
        lemma_step_aside_keeps_out(trace[k - 1], trace[k], id);
    }
    assert forall|post: OrderQueue<T>, r: OrderIndex|
        trace[k].peeks_record(post, r) || trace[k].pops_record(post, r) implies r.id != id by {
        lemma_dead_order_not_served(trace[k], post, r, id);
    }
}

/// Of two inserts of one id in a row, the second is refused and changes
/// nothing: the order keeps the payload it had after the first.
pub proof fn lemma_second_insert_refused<T>(
    pre: OrderQueue<T>,
    mid: OrderQueue<T>,
    post: OrderQueue<T>,
    id: u64,
    first: (u64, u64, T),
    second: (u64, u64, T),
    accepted_first: bool,
    accepted_second: bool,
)
    requires
        pre.wf(),
        pre.insert_step(mid, id, first.0, first.1, first.2, accepted_first),
        mid.insert_step(post, id, second.0, second.1, second.2, accepted_second),
    ensures
        !accepted_second,
        post == mid,
        post.is_live(id),
        accepted_first ==> post.orders()[id] == first.2,
        !accepted_first ==> post.orders()[id] == pre.orders()[id],
{
}

/// An amend of an order that is not live is refused and changes nothing.
pub proof fn lemma_amend_unknown_refused<T>(
    pre: OrderQueue<T>,
    post: OrderQueue<T>,
    id: u64,
    price: u64,
    ts: u64,
    order: T,
    accepted: bool,
)
    requires
        !pre.is_live(id),
        pre.amend_step(post, id, price, ts, order, accepted),
    ensures
        !accepted,
        post == pre,
{
}

/// After an amend of a live order, the order has the new payload and one
/// record, which carries the new price and timestamp: none of its old
/// records is left to hold its old place, and a peek that shows the order
/// shows it by the new record and with the new payload.
pub proof fn lemma_amend_moves_order<T>(
    pre: OrderQueue<T>,
    post: OrderQueue<T>,
    id: u64,
    price: u64,
    ts: u64,
    order: T,
    accepted: bool,
)
    requires
        pre.wf(),
        pre.is_live(id),
        pre.amend_step(post, id, price, ts, order, accepted),
    ensures
        accepted,
        post.orders()[id] == order,
        post.index().count(pre.record(id, price, ts)) == 1,
        forall|r: OrderIndex| post.index().contains(r) && r.id == id ==> r == pre.record(id, price, ts),
        forall|r: OrderIndex| r.id != id ==> post.index().count(r) == pre.index().count(r),
        forall|shown: OrderQueue<T>, r: OrderIndex|
            post.peeks_record(shown, r) && r.id == id ==> r == pre.record(id, price, ts)
                && shown.shown() == Some(order),
{
    let fresh = pre.record(id, price, ts);
    assert forall|r: OrderIndex| post.index().contains(r) && r.id == id implies r == fresh by {
        assert(without_order(pre.index(), id).count(r) == 0);
    }
    assert forall|r: OrderIndex| r.id != id implies post.index().count(r) == pre.index().count(
        r,
    ) by {
        assert(without_order(pre.index(), id).count(r) == pre.index().count(r));
    }
    assert forall|shown: OrderQueue<T>, r: OrderIndex|
        post.peeks_record(shown, r) && r.id == id implies r == fresh && shown.shown() == Some(
        order,
    ) by {
        lemma_peek_shows_best(post, shown, r);
    }
}

/// An insert of an id that is not live is accepted. The order then has the
/// payload given and one record, which carries the price and timestamp
/// given: a stale record that an earlier cancel of the id left behind is
/// gone, the records of other orders are as they were, and a peek that
/// shows the order shows it by the new record and with the new payload.
pub proof fn lemma_insert_places_order<T>(
    pre: OrderQueue<T>,
    post: OrderQueue<T>,
    id: u64,
    price: u64,
    ts: u64,
    order: T,
    accepted: bool,
)
    requires
        pre.wf(),
        !pre.is_live(id),
        pre.insert_step(post, id, price, ts, order, accepted),
    ensures
        accepted,
        post.orders()[id] == order,
        post.record_of(id) == pre.record(id, price, ts),
        post.index().count(pre.record(id, price, ts)) == 1,
        forall|r: OrderIndex| post.index().contains(r) && r.id == id ==> r == pre.record(id, price, ts),
        forall|r: OrderIndex| r.id != id ==> post.index().count(r) == pre.index().count(r),
        forall|shown: OrderQueue<T>, r: OrderIndex|
            post.peeks_record(shown, r) && r.id == id ==> r == pre.record(id, price, ts)
                && shown.shown() == Some(order),
{
    let fresh = pre.record(id, price, ts);
    post.lemma_wf();
    assert(post.index().contains(fresh));
    assert forall|r: OrderIndex| r.id != id implies post.index().count(r) == pre.index().count(
        r,
    ) by {
        assert(without_order(pre.index(), id).count(r) == pre.index().count(r));
    }
    assert forall|shown: OrderQueue<T>, r: OrderIndex|
        post.peeks_record(shown, r) && r.id == id implies r == fresh && shown.shown() == Some(
        order,
    ) by {
        lemma_peek_shows_best(post, shown, r);
    }
}

/// `post` follows `pre` by one operation of the queue that is neither an
/// insert nor an amend of order `id`.
pub open spec fn steps_around<T>(pre: OrderQueue<T>, post: OrderQueue<T>, id: u64) -> bool {
    ||| exists|other: u64| other != id && #[trigger] steps_by_insert(pre, post, other)
    ||| exists|other: u64, price: u64, ts: u64, order: T, accepted: bool|
        other != id && #[trigger] pre.amend_step(post, other, price, ts, order, accepted)
    ||| exists|any: u64, removed: bool| #[trigger] pre.cancel_step(post, any, removed)
    ||| exists|best: Option<T>| #[trigger] pre.peek_step(post, best)
    ||| exists|best: Option<T>| #[trigger] pre.pop_step(post, best)
    ||| exists|order: T, replaced: bool| #[trigger] pre.modify_step(post, order, replaced)
}

/// An order that stays live through an operation other than an insert or
/// amend of its id keeps its record, and with it its price, its timestamp
/// and its place.
pub proof fn lemma_step_around_keeps_record<T>(pre: OrderQueue<T>, post: OrderQueue<T>, id: u64)
    requires
        pre.wf(),
        steps_around(pre, post, id),
    ensures
        post.wf(),
        steps_aside(pre, post, id),
        pre.is_live(id) && post.is_live(id) ==> post.record_of(id) == pre.record_of(id),
{
    if pre.is_live(id) && post.is_live(id) {
        pre.lemma_wf();
        post.lemma_wf();
        assert(pre.indexed(id));
        let r = pre.record_of(id);
        assert(post.index().contains(r)) by {
            lemma_step_around_keeps_live_records(pre, post, id, r);
        }
    }
}

/// A record of an order that stays live through an operation other than an
/// insert or amend of its id is still held after it.
proof fn lemma_step_around_keeps_live_records<T>(
    pre: OrderQueue<T>,
    post: OrderQueue<T>,
    id: u64,
    r: OrderIndex,
)
    requires
        pre.wf(),
        steps_around(pre, post, id),
        pre.index().contains(r),
        r.id == id,
        post.is_live(id),
    ensures
        post.index().contains(r),
{
    if exists|other: u64| other != id && #[trigger] steps_by_insert(pre, post, other) {
        let other = choose|other: u64| other != id && #[trigger] steps_by_insert(pre, post, other);
        let (price, ts, order, accepted) = choose|price: u64, ts: u64, order: T, accepted: bool|
         #[trigger] pre.insert_step(post, other, price, ts, order, accepted);
        assert(without_order(pre.index(), other).count(r) == pre.index().count(r));
    } else if exists|other: u64, price: u64, ts: u64, order: T, accepted: bool|
        other != id && #[trigger] pre.amend_step(post, other, price, ts, order, accepted) {
        let (other, price, ts, order, accepted) = choose|
            other: u64,
            price: u64,
            ts: u64,
            order: T,
            accepted: bool,
        | other != id && #[trigger] pre.amend_step(post, other, price, ts, order, accepted);
        assert(without_order(pre.index(), other).count(r) == pre.index().count(r));
    } else if exists|any: u64, removed: bool| #[trigger] pre.cancel_step(post, any, removed) {
        let (any, removed) = choose|any: u64, removed: bool| #[trigger]
            pre.cancel_step(post, any, removed);
        assert(live_only(pre.index(), post.orders().dom()).count(r) == pre.index().count(r));
    } else if exists|best: Option<T>| #[trigger] pre.peek_step(post, best) {
        assert(!pre.dropped(post, r));
    } else if exists|best: Option<T>| #[trigger] pre.pop_step(post, best) {
        let best = choose|best: Option<T>| #[trigger] pre.pop_step(post, best);
        let mid = choose|mid: OrderQueue<T>| #[trigger]
            pre.discard_step(mid) && mid.take_step(post, best);
        assert(!pre.dropped(mid, r));
    }
}

/// An order is ranked by its last insert or amend: through whatever
/// operations follow the insert or amend that gave it the record `fresh`,
/// short of another insert or amend of its id, the order has that record
/// for as long as it is live, and a peek or pop that serves the order
/// serves it by that record.
pub proof fn lemma_ranked_by_last_placing<T>(
    trace: Seq<OrderQueue<T>>,
    id: u64,
    fresh: OrderIndex,
    k: int,
)
    requires
        trace.len() > 0,
        trace[0].wf(),
        trace[0].is_live(id),
        trace[0].record_of(id) == fresh,
        forall|n: int| 0 <= n < trace.len() - 1 ==> steps_around(#[trigger] trace[n], trace[n + 1], id),
        0 <= k < trace.len(),
    ensures
        trace[k].wf(),
        trace[k].is_live(id) ==> trace[k].record_of(id) == fresh,
        forall|post: OrderQueue<T>, r: OrderIndex|
            (trace[k].peeks_record(post, r) || trace[k].pops_record(post, r)) && r.id == id ==> r
                == fresh,
    decreases k,
{
    if k > 0 {
        lemma_ranked_by_last_placing(trace, id, fresh, k - 1);
        assert(steps_around(trace[k - 1], trace[k - 1 + 1], id));
        lemma_step_around_keeps_record(trace[k - 1], trace[k], id);
        if !trace[k - 1].is_live(id) {
            lemma_step_aside_keeps_out(trace[k - 1], trace[k], id);
        }
    }
    assert forall|post: OrderQueue<T>, r: OrderIndex|
        (trace[k].peeks_record(post, r) || trace[k].pops_record(post, r)) && r.id
            == id implies r == fresh by {
        if trace[k].pops_record(post, r) {
            lemma_pop_serves_best(trace[k], post, r);
        } else {
            lemma_peek_shows_best(trace[k], post, r);
        }
    }
}

/// The cancel that brings the count of cancels past the threshold sweeps
/// the heap: the count starts anew, the heap holds the records of the live
/// orders and no others, as many as there are live orders, and no live
/// order's record or payload is touched: what was the best of the orders
/// left is still the best.
pub proof fn lemma_sweep_leaves_live_records<T>(pre: OrderQueue<T>, post: OrderQueue<T>, id: u64)
    requires
        pre.wf(),
        pre.cancel_step(post, id, true),
        pre.cancels() + 1 > pre.max_stalled(),
    ensures
        post.cancels() == 0,
        post.index().len() == post.orders().len(),
        forall|r: OrderIndex| post.index().contains(r) ==> post.is_live(r.id),
        forall|r: OrderIndex| post.is_live(r.id) ==> post.index().count(r) == pre.index().count(r),
        forall|r: OrderIndex| post.live_record(r) <==> pre.live_record(r) && r.id != id,
        forall|live: u64| post.is_live(live) ==> post.orders()[live] == pre.orders()[live],
        forall|live: u64| post.is_live(live) ==> post.record_of(live) == pre.record_of(live),
        forall|r: OrderIndex|
            post.is_best(r) <==> pre.live_record(r) && r.id != id && forall|q: OrderIndex|
                pre.live_record(q) && q.id != id ==> r.at_least(q),
{
    let kept = post.index();
    assert forall|r: OrderIndex| kept.contains(r) implies post.is_live(r.id) by {}
    assert forall|r: OrderIndex| post.is_live(r.id) implies kept.count(r) == pre.index().count(
        r,
    ) by {}
    assert forall|r: OrderIndex| post.live_record(r) <==> pre.live_record(r) && r.id != id by {
        if r.id != id {
            assert(kept.count(r) == if post.is_live(r.id) {
                pre.index().count(r)
            } else {
                0
            });
        }
    }
    pre.lemma_wf();
    post.lemma_wf();
    assert forall|live: u64| post.is_live(live) implies post.record_of(live) == pre.record_of(
        live,
    ) by {
        assert(pre.indexed(live));
        let r = pre.record_of(live);
        assert(post.index().contains(r));
    }
    assert forall|r: OrderIndex|
        post.is_best(r) <==> pre.live_record(r) && r.id != id && forall|q: OrderIndex|
            pre.live_record(q) && q.id != id ==> r.at_least(q) by {
        if post.is_best(r) {
            assert forall|q: OrderIndex| pre.live_record(q) && q.id != id implies r.at_least(
                q,
            ) by {
                assert(post.live_record(q));
            }
        }
        if pre.live_record(r) && r.id != id && forall|q: OrderIndex|
            pre.live_record(q) && q.id != id ==> r.at_least(q) {
            assert forall|q: OrderIndex| #[trigger] post.live_record(q) implies r.at_least(q) by {
                assert(pre.live_record(q) && q.id != id);
            }
        }
    }
}

/// A sweep of what was swept changes nothing.
pub proof fn lemma_sweep_twice_is_once(index: Multiset<OrderIndex>, live: Set<u64>)
    ensures
        live_only(live_only(index, live), live) == live_only(index, live),
{
    assert(live_only(live_only(index, live), live) =~= live_only(index, live));
}

} // verus!
