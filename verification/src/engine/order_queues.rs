//! The indexed priority queue of one side of the book.
//!
//! A queue pairs a heap of index records with a map from order id to the
//! order's payload. The map alone says which orders are live. The heap may
//! hold stale records, whose id is no longer in the map: cancelling removes
//! the payload and leaves the record behind, to be discarded when it
//! reaches the top, when enough cancels have piled up for a sweep, or when
//! the id is inserted anew. No id ever has two records, so a live order is
//! always ranked by the record of its last insert or amend.

use vstd::prelude::*;
use vstd::multiset::Multiset;
use vstd::seq_lib::*;
use std::collections::HashMap;
use std::collections::HashSet;
use crate::engine::domain::OrderSide;
use crate::engine::index_heap::IndexHeap;
use crate::engine::order_index::OrderIndex;

verus! {

broadcast use vstd::std_specs::hash::group_hash_axioms;

/// The records of `index` whose order is in `live`.
pub open spec fn live_only(index: Multiset<OrderIndex>, live: Set<u64>) -> Multiset<OrderIndex> {
    index.filter(|r: OrderIndex| live.contains(r.id))
}

/// The records of `index` that stand for an order other than `id`.
pub open spec fn without_order(index: Multiset<OrderIndex>, id: u64) -> Multiset<OrderIndex> {
    index.filter(|r: OrderIndex| r.id != id)
}

/// Filtering after appending one record is appending it, or not, after
/// filtering.
proof fn lemma_filter_push(s: Seq<OrderIndex>, a: OrderIndex, keep: spec_fn(OrderIndex) -> bool)
    ensures
        s.push(a).to_multiset().filter(keep) == if keep(a) {
            s.to_multiset().filter(keep).insert(a)
        } else {
            s.to_multiset().filter(keep)
        },
{
    broadcast use group_to_multiset_ensures;

}

/// Nothing comes of filtering no records.
proof fn lemma_filter_none(keep: spec_fn(OrderIndex) -> bool)
    ensures
        Seq::<OrderIndex>::empty().to_multiset().filter(keep) == Seq::<OrderIndex>::empty().to_multiset(),
{
    broadcast use group_to_multiset_ensures;

}

/// The records of `items` whose order is live in `orders`.
fn retain_live<T>(items: &Vec<OrderIndex>, orders: &HashMap<u64, T>) -> (kept: Vec<OrderIndex>)
    ensures
        kept@.to_multiset() == live_only(items@.to_multiset(), orders@.dom()),
        forall|k: int| 0 <= k < kept@.len() ==> items@.contains(#[trigger] kept@[k]),
{
    let mut kept: Vec<OrderIndex> = Vec::new();
    let mut i: usize = 0;
    proof {
        assert(items@.take(0) =~= Seq::empty());
        lemma_filter_none(|r: OrderIndex| orders@.dom().contains(r.id));
    }
    while i < items.len()
        invariant
            i <= items@.len(),
            kept@.to_multiset() == live_only(items@.take(i as int).to_multiset(), orders@.dom()),
            forall|k: int| 0 <= k < kept@.len() ==> items@.contains(#[trigger] kept@[k]),
        decreases items@.len() - i,
    {
        let record = items[i];
        proof {
            assert(items@.take(i + 1) =~= items@.take(i as int).push(record));
            lemma_filter_push(
                items@.take(i as int),
                record,
                |r: OrderIndex| orders@.dom().contains(r.id),
            );
        }
        if orders.contains_key(&record.id) {
            kept.push(record);
            proof {
                broadcast use group_to_multiset_ensures;

            }
        }
        i = i + 1;
    }
    proof {
        assert(items@.take(i as int) =~= items@);
    }
    kept
}

/// The records of `items` that stand for an order other than `id`.
fn retain_others(items: &Vec<OrderIndex>, id: u64) -> (kept: Vec<OrderIndex>)
    ensures
        kept@.to_multiset() == without_order(items@.to_multiset(), id),
        forall|k: int| 0 <= k < kept@.len() ==> items@.contains(#[trigger] kept@[k]),
{
    let mut kept: Vec<OrderIndex> = Vec::new();
    let mut i: usize = 0;
    proof {
        assert(items@.take(0) =~= Seq::empty());
        lemma_filter_none(|r: OrderIndex| r.id != id);
    }
    while i < items.len()
        invariant
            i <= items@.len(),
            kept@.to_multiset() == without_order(items@.take(i as int).to_multiset(), id),
            forall|k: int| 0 <= k < kept@.len() ==> items@.contains(#[trigger] kept@[k]),
        decreases items@.len() - i,
    {
        let record = items[i];
        proof {
            assert(items@.take(i + 1) =~= items@.take(i as int).push(record));
            lemma_filter_push(items@.take(i as int), record, |r: OrderIndex| r.id != id);
        }
        if record.id != id {
            kept.push(record);
            proof {
                broadcast use group_to_multiset_ensures;

            }
        }
        i = i + 1;
    }
    proof {
        assert(items@.take(i as int) =~= items@);
    }
    kept
}

/// A multiset of records in which every record stands for an order of
/// `ids`, every order of `ids` has a record and no order has two, holds as
/// many records as `ids` holds orders.
proof fn lemma_one_record_each(index: Multiset<OrderIndex>, ids: Set<u64>)
    requires
        ids.finite(),
        forall|r: OrderIndex| index.contains(r) ==> ids.contains(r.id),
        forall|id: u64|
            ids.contains(id) ==> exists|r: OrderIndex| #[trigger] index.contains(r) && r.id == id,
        forall|r: OrderIndex, q: OrderIndex|
            #[trigger] index.contains(r) && #[trigger] index.contains(q) && r.id == q.id ==> r == q
                && index.count(r) == 1,
    ensures
        index.len() == ids.len(),
    decreases ids.len(),
{
    if ids.len() == 0 {
        if index.len() != 0 {
            let r = index.choose();
            assert(index.contains(r));
        }
    } else {
        let id = ids.choose();
        let r0 = choose|r: OrderIndex| #[trigger] index.contains(r) && r.id == id;
        let rest = index.remove(r0);
        let others = ids.remove(id);
        assert forall|r: OrderIndex| rest.contains(r) implies others.contains(r.id) by {
            assert(index.contains(r) && index.contains(r0));
        }
        assert forall|i: u64| others.contains(i) implies exists|r: OrderIndex| #[trigger]
            rest.contains(r) && r.id == i by {
            let r = choose|r: OrderIndex| #[trigger] index.contains(r) && r.id == i;
            assert(rest.contains(r));
        }
        assert forall|r: OrderIndex, q: OrderIndex|
            #[trigger] rest.contains(r) && #[trigger] rest.contains(q) && r.id == q.id implies r
            == q && rest.count(r) == 1 by {
            assert(index.contains(r) && index.contains(q));
        }
        lemma_one_record_each(rest, others);
    }
}

/// The resting orders of one side, ranked by price and time.
pub struct OrderQueue<T> {
    idx_queue: IndexHeap,
    orders: HashMap<u64, T>,
    stalled: HashSet<u64>,
    op_counter: u64,
    max_stalled: u64,
    queue_side: OrderSide,
}

impl<T> OrderQueue<T> {
    /// The live orders: payload by id.
    pub closed spec fn orders(self) -> Map<u64, T> {
        self.orders@
    }

    /// The index records held, stale ones included.
    pub closed spec fn index(self) -> Multiset<OrderIndex> {
        self.idx_queue@
    }

    /// The record on top of the heap, live or stale.
    pub closed spec fn current(self) -> Option<OrderIndex> {
        self.idx_queue.top()
    }

    /// Successful cancels since the last sweep.
    pub closed spec fn cancels(self) -> u64 {
        self.op_counter
    }

    /// How many cancels may pile up before a sweep.
    pub closed spec fn max_stalled(self) -> u64 {
        self.max_stalled
    }

    /// The side this queue serves.
    pub closed spec fn side(self) -> OrderSide {
        self.queue_side
    }

    /// The queue is consistent: the heap is in order, every record rests on
    /// the queue's side, every live order has a record, no id has two
    /// records, every stale record is remembered as such, and the cancel
    /// counter has not passed the threshold.
    pub closed spec fn wf(self) -> bool {
        &&& self.idx_queue.wf()
        &&& self.idx_queue.rests_on(self.queue_side)
        &&& self.op_counter <= self.max_stalled
        &&& forall|id: u64| self.orders@.contains_key(id) ==> #[trigger] self.indexed(id)
        &&& self.one_record_each()
        &&& forall|r: OrderIndex| #[trigger]
            self.idx_queue@.contains(r) ==> self.orders@.contains_key(r.id)
                || self.stalled@.contains(r.id)
    }

    /// No id has more than one record.
    pub open spec fn one_record_each(self) -> bool {
        forall|r: OrderIndex, q: OrderIndex|
            #[trigger] self.index().contains(r) && #[trigger] self.index().contains(q) && r.id
                == q.id ==> r == q && self.index().count(r) == 1
    }

    /// The record that ranks order `id`, where the index holds one.
    pub open spec fn record_of(self, id: u64) -> OrderIndex {
        choose|r: OrderIndex| #[trigger] self.index().contains(r) && r.id == id
    }

    /// Order `id` is live.
    pub open spec fn is_live(self, id: u64) -> bool {
        self.orders().contains_key(id)
    }

    /// The index holds a record for order `id`.
    pub open spec fn indexed(self, id: u64) -> bool {
        exists|r: OrderIndex| #[trigger] self.index().contains(r) && r.id == id
    }

    /// Record `r` is held and stands for a live order.
    pub open spec fn live_record(self, r: OrderIndex) -> bool {
        self.index().contains(r) && self.is_live(r.id)
    }

    /// Record `r` stands for a live order, and no live order is served
    /// before it.
    pub open spec fn is_best(self, r: OrderIndex) -> bool {
        &&& self.live_record(r)
        &&& forall|q: OrderIndex| #[trigger] self.live_record(q) ==> r.at_least(q)
    }

    /// The record that ranks order `id` at `price` and `timestamp` here.
    pub open spec fn record(self, id: u64, price: u64, timestamp: u64) -> OrderIndex {
        OrderIndex { id, price, timestamp, order_side: self.side() }
    }

    /// `post` has the threshold and the side of `self`.
    pub open spec fn same_settings(self, post: Self) -> bool {
        post.max_stalled() == self.max_stalled() && post.side() == self.side()
    }

    /// What consistency says in terms of the abstract state.
    pub proof fn lemma_wf(self)
        requires
            self.wf(),
        ensures
            self.cancels() <= self.max_stalled(),
            self.orders().dom().finite(),
            forall|r: OrderIndex| self.index().contains(r) ==> r.order_side == self.side(),
            forall|id: u64| self.is_live(id) ==> #[trigger] self.indexed(id),
            self.one_record_each(),
            forall|r: OrderIndex| #[trigger] self.index().contains(r) ==> self.record_of(r.id) == r,
            self.current() is None <==> self.index().len() == 0,
            self.current() matches Some(c) ==> self.index().contains(c) && forall|r: OrderIndex|
                self.index().contains(r) ==> c.at_least(r),
    {
        self.idx_queue.lemma_top_leads();
    }

    /// A consistent queue without stale records holds as many records as
    /// live orders.
    pub proof fn lemma_count_without_stale(self)
        requires
            self.wf(),
            forall|r: OrderIndex| self.index().contains(r) ==> self.is_live(r.id),
        ensures
            self.index().len() == self.orders().len(),
    {
        assert forall|id: u64| self.orders().dom().contains(id) implies exists|r: OrderIndex|
            #[trigger] self.index().contains(r) && r.id == id by {
            assert(self.indexed(id));
        }
        lemma_one_record_each(self.index(), self.orders().dom());
    }

    /// A queue that differs from the consistent `self` only in that records
    /// or orders are gone, but no record of an order that is still live, is
    /// consistent.
    proof fn lemma_wf_after_dropping(self, post: Self)
        requires
            self.wf(),
            post.idx_queue.wf(),
            post.op_counter <= post.max_stalled,
            post.queue_side == self.queue_side,
            post.index().subset_of(self.index()),
            forall|id: u64| post.is_live(id) ==> self.is_live(id),
            forall|r: OrderIndex|
                self.index().contains(r) && post.is_live(r.id) ==> post.index().contains(r),
            forall|r: OrderIndex| #[trigger]
                post.index().contains(r) ==> post.is_live(r.id) || post.stalled@.contains(r.id),
        ensures
            post.wf(),
    {
        assert forall|r: OrderIndex| post.idx_queue@.contains(r) implies r.order_side
            == post.queue_side by {
            assert(self.idx_queue@.contains(r));
        }
        assert forall|id: u64| post.is_live(id) implies #[trigger] post.indexed(id) by {
            assert(self.indexed(id));
            let r = choose|r: OrderIndex| #[trigger] self.index().contains(r) && r.id == id;
            assert(post.index().contains(r));
        }
        assert forall|r: OrderIndex, q: OrderIndex|
            #[trigger] post.index().contains(r) && #[trigger] post.index().contains(q) && r.id
                == q.id implies r == q && post.index().count(r) == 1 by {
            assert(self.index().contains(r) && self.index().contains(q));
        }
    }

    /// A queue that differs from the consistent `self` in that the records
    /// of one order have given way to the fresh `record` of it, and perhaps
    /// in that this order is now live, is consistent.
    proof fn lemma_wf_after_placing(self, post: Self, record: OrderIndex)
        requires
            self.wf(),
            post.idx_queue.wf(),
            post.op_counter <= post.max_stalled,
            post.queue_side == self.queue_side,
            record.order_side == self.queue_side,
            post.index() == without_order(self.index(), record.id).insert(record),
            forall|id: u64| post.is_live(id) ==> self.is_live(id) || id == record.id,
            forall|id: u64| self.is_live(id) ==> post.is_live(id),
            forall|id: u64|
                id != record.id && self.stalled@.contains(id) ==> post.stalled@.contains(id),
            post.is_live(record.id) || post.stalled@.contains(record.id),
        ensures
            post.wf(),
    {
        let others = without_order(self.index(), record.id);
        assert forall|r: OrderIndex| post.idx_queue@.contains(r) implies r.order_side
            == post.queue_side by {
            if r != record {
                assert(self.idx_queue@.contains(r));
            }
        }
        assert forall|id: u64| post.is_live(id) implies #[trigger] post.indexed(id) by {
            if id == record.id {
                assert(post.index().contains(record));
            } else {
                assert(self.indexed(id));
                let r = choose|r: OrderIndex| #[trigger] self.index().contains(r) && r.id == id;
                assert(post.index().contains(r));
            }
        }
        assert forall|r: OrderIndex, q: OrderIndex|
            #[trigger] post.index().contains(r) && #[trigger] post.index().contains(q) && r.id
                == q.id implies r == q && post.index().count(r) == 1 by {
            if r.id == record.id {
                assert(r != record ==> others.count(r) == 0);
                assert(q != record ==> others.count(q) == 0);
                assert(others.count(record) == 0);
            } else {
                assert(self.index().contains(r) && self.index().contains(q));
            }
        }
        assert forall|r: OrderIndex| #[trigger] post.idx_queue@.contains(r) implies post.orders@.contains_key(
            r.id,
        ) || post.stalled@.contains(r.id) by {
            if r.id != record.id {
                assert(self.idx_queue@.contains(r));
                assert(self.is_live(r.id) ==> post.is_live(r.id));
                assert(self.stalled@.contains(r.id) ==> post.stalled@.contains(r.id));
            } else {
                assert(post.is_live(record.id) || post.stalled@.contains(record.id));
            }
        }
    }

    /// The effect of `insert`: where the id is not live, the order becomes
    /// live with one record, the new one; a stale record that an earlier
    /// cancel of the id left behind is gone.
    pub open spec fn insert_step(
        self,
        post: Self,
        id: u64,
        price: u64,
        timestamp: u64,
        order: T,
        accepted: bool,
    ) -> bool {
        &&& post.wf()
        &&& accepted == !self.is_live(id)
        &&& if accepted {
            &&& post.orders() == self.orders().insert(id, order)
            &&& post.index() == without_order(self.index(), id).insert(
                self.record(id, price, timestamp),
            )
            &&& post.cancels() == self.cancels()
            &&& self.same_settings(post)
        } else {
            post == self
        }
    }

    /// The effect of `amend`.
    pub open spec fn amend_step(
        self,
        post: Self,
        id: u64,
        price: u64,
        timestamp: u64,
        order: T,
        accepted: bool,
    ) -> bool {
        &&& post.wf()
        &&& accepted == self.is_live(id)
        &&& if accepted {
            &&& post.orders() == self.orders().insert(id, order)
            &&& post.index() == without_order(self.index(), id).insert(
                self.record(id, price, timestamp),
            )
            &&& post.cancels() == self.cancels()
            &&& self.same_settings(post)
        } else {
            post == self
        }
    }

    /// The effect of `cancel`: the order is gone; its record stays behind as
    /// a stale one, unless this cancel brings the count of cancels past the
    /// threshold: then the count starts anew and the heap is swept, which
    /// leaves the records of the live orders, one for each.
    pub open spec fn cancel_step(self, post: Self, id: u64, removed: bool) -> bool {
        &&& post.wf()
        &&& removed == self.is_live(id)
        &&& if removed {
            &&& post.orders() == self.orders().remove(id)
            &&& self.same_settings(post)
            &&& if self.cancels() + 1 > self.max_stalled() {
                &&& post.cancels() == 0
                &&& post.index() == live_only(self.index(), post.orders().dom())
                &&& post.index().len() == post.orders().len()
            } else {
                &&& post.cancels() == self.cancels() + 1
                &&& post.index() == self.index()
                &&& post.current() == self.current()
            }
        } else {
            post == self
        }
    }

    /// The payload of the record on top, where that record is live.
    pub open spec fn shown(self) -> Option<T> {
        match self.current() {
            Some(c) => if self.is_live(c.id) {
                Some(self.orders()[c.id])
            } else {
                None
            },
            None => None,
        }
    }

    /// Record `r` is held fewer times in `post` than in `self`.
    pub open spec fn dropped(self, post: Self, r: OrderIndex) -> bool {
        post.index().count(r) < self.index().count(r)
    }

    /// `post` is `self` after some records were discarded from the top of
    /// the heap, each of them stale.
    pub open spec fn discarding(self, post: Self) -> bool {
        &&& post.orders() == self.orders()
        &&& post.cancels() == self.cancels()
        &&& self.same_settings(post)
        &&& post.index().subset_of(self.index())
        &&& forall|r: OrderIndex| #[trigger] self.dropped(post, r) ==> !self.is_live(r.id)
        &&& forall|r: OrderIndex, q: OrderIndex|
            #[trigger] self.dropped(post, r) && #[trigger] post.index().contains(q) ==> r.at_least(
                q,
            )
        &&& post == self || !(self.current() matches Some(c) && self.is_live(c.id))
    }

    /// `post` is `self` after the stale records on top were discarded, as
    /// many as it takes: a live record is on top of `post`, or `post` holds
    /// no record and no order.
    pub open spec fn discard_step(self, post: Self) -> bool {
        &&& post.wf()
        &&& self.discarding(post)
        &&& match post.current() {
            Some(c) => post.is_live(c.id),
            None => post.index().len() == 0 && post.is_idle(),
        }
    }

    /// No order is live.
    pub open spec fn is_idle(self) -> bool {
        self.orders() == Map::<u64, T>::empty()
    }

    /// The effect of `peek`: the stale records on top are discarded and the
    /// order of the live record then on top is shown. Nothing is shown
    /// exactly when no order is live.
    pub open spec fn peek_step(self, post: Self, best: Option<T>) -> bool {
        &&& self.discard_step(post)
        &&& best == post.shown()
        &&& best is None <==> self.is_idle()
    }

    /// `post` is `self` without the record on top and without its order,
    /// which is `best`; where no live record is on top, nothing is taken.
    pub open spec fn take_step(self, post: Self, best: Option<T>) -> bool {
        &&& post.wf()
        &&& best == self.shown()
        &&& match self.current() {
            Some(c) => if self.is_live(c.id) {
                &&& post.orders() == self.orders().remove(c.id)
                &&& post.index() == self.index().remove(c)
                &&& post.cancels() == self.cancels()
                &&& self.same_settings(post)
            } else {
                post == self
            },
            None => post == self,
        }
    }

    /// The effect of `pop`: the stale records on top are discarded, then the
    /// live record on top is taken with its order. Nothing is taken exactly
    /// when no order is live.
    pub open spec fn pop_step(self, post: Self, best: Option<T>) -> bool {
        &&& exists|mid: Self| #[trigger] self.discard_step(mid) && mid.take_step(post, best)
        &&& best is None <==> self.is_idle()
    }

    /// A `peek` of `self` gives `post` and shows the order of record `r`.
    pub open spec fn peeks_record(self, post: Self, r: OrderIndex) -> bool {
        self.discard_step(post) && post.current() == Some(r)
    }

    /// A `pop` of `self` gives `post` and takes the order of record `r`.
    pub open spec fn pops_record(self, post: Self, r: OrderIndex) -> bool {
        exists|mid: Self| #[trigger]
            self.discard_step(mid) && mid.current() == Some(r) && mid.take_step(post, mid.shown())
    }

    /// The effect of `modify_current_order`.
    pub open spec fn modify_step(self, post: Self, order: T, replaced: bool) -> bool {
        &&& post.wf()
        &&& replaced == (self.current() matches Some(c) && self.is_live(c.id))
        &&& if replaced {
            &&& post.orders() == self.orders().insert(self.current().unwrap().id, order)
            &&& post.index() == self.index()
            &&& post.current() == self.current()
            &&& post.cancels() == self.cancels()
            &&& self.same_settings(post)
        } else {
            post == self
        }
    }

    /// An empty queue for `side` that sweeps once more than `max_stalled`
    /// cancels have piled up, with room for `capacity` orders.
    pub fn new(side: OrderSide, max_stalled: u64, capacity: usize) -> (queue: Self)
        ensures
            queue.wf(),
            queue.is_idle(),
            queue.index() == Multiset::<OrderIndex>::empty(),
            queue.current() is None,
            queue.cancels() == 0,
            queue.max_stalled() == max_stalled,
            queue.side() == side,
    {
        let queue = OrderQueue {
            idx_queue: IndexHeap::with_capacity(capacity),
            orders: HashMap::with_capacity(capacity),
            stalled: HashSet::new(),
            op_counter: 0,
            max_stalled,
            queue_side: side,
        };
        proof {
            queue.idx_queue.lemma_top_leads();
        }
        queue
    }

    /// How many orders are live.
    pub fn len(&self) -> (n: usize)
        ensures
            n == self.orders().len(),
    {
        self.orders.len()
    }

    /// How many records the heap holds, stale ones included.
    pub fn index_len(&self) -> (n: usize)
        ensures
            n == self.index().len(),
    {
        self.idx_queue.len()
    }

    /// Whether order `id` is live.
    pub fn contains(&self, id: u64) -> (live: bool)
        ensures
            live == self.is_live(id),
    {
        self.orders.contains_key(&id)
    }

    /// Adds a new order. An id that is already live is refused and nothing
    /// changes: an insert never replaces. Where an earlier cancel of the id
    /// left a stale record behind, that record is discarded first, so that
    /// the order is ranked by its new price and timestamp alone.
    pub fn insert(&mut self, id: u64, price: u64, ts: u64, order: T) -> (accepted: bool)
        requires
            old(self).wf(),
        ensures
            accepted <==> !old(self).is_live(id),
            old(self).insert_step(*final(self), id, price, ts, order, accepted),
    {
        if self.orders.contains_key(&id) {
            return false;
        }
        let ghost record = self.record(id, price, ts);
        if self.stalled.contains(&id) {
            self.rebuild_idx(id, price, ts);
            self.stalled.remove(&id);
        } else {
            proof {
                assert forall|r: OrderIndex| r.id == id implies self.index().count(r) == 0 by {
                    assert(!self.idx_queue@.contains(r));
                }
                assert(without_order(self.index(), id) =~= self.index());
            }
            self.idx_queue.push(
                OrderIndex { id, price, timestamp: ts, order_side: self.queue_side },
            );
        }
        self.orders.insert(id, order);
        proof {
            old(self).lemma_wf_after_placing(*self, record);
        }
        true
    }

    /// Replaces the payload of the order on top of the heap and leaves its
    /// record alone, so that the order keeps its place. Refused when the
    /// heap is empty or its top is stale.
    pub fn modify_current_order(&mut self, new_order: T) -> (replaced: bool)
        requires
            old(self).wf(),
        ensures
            replaced <==> old(self).shown() is Some,
            old(self).modify_step(*final(self), new_order, replaced),
    {
        if let Some(order_id) = self.get_current_order_id() {
            if self.orders.contains_key(&order_id) {
                self.orders.insert(order_id, new_order);
                proof {
                    old(self).lemma_wf_after_dropping(*self);
                }
                return true;
            }
        }
        false
    }

    /// The best live order, left in place. Stale records met on top of the
    /// heap are discarded on the way. `None` when no order is live.
    pub fn peek(&mut self) -> (best: Option<&T>)
        requires
            old(self).wf(),
        ensures
            best is None <==> old(self).is_idle(),
            old(self).peek_step(
                *final(self),
                match best {
                    Some(order) => Some(*order),
                    None => None,
                },
            ),
    {
        loop
            invariant
                self.wf(),
                old(self).discarding(*self),
            decreases self.index().len(),
        {
            proof {
                self.lemma_wf();
            }
            match self.get_current_order_id() {
                None => {
                    proof {
                        self.lemma_no_record_no_order();
                    }
                    return None;
                },
                Some(order_id) => {
                    if self.orders.contains_key(&order_id) {
                        return self.orders.get(&order_id);
                    }
                    let ghost before = *self;
                    self.idx_queue.pop();
                    self.stalled.remove(&order_id);
                    proof {
                        old(self).lemma_discard_one_more(before, *self);
                    }
                },
            }
        }
    }

    /// Takes the best live order out of the queue. Stale records met on top
    /// of the heap are discarded on the way. `None` when no order is live.
    pub fn pop(&mut self) -> (best: Option<T>)
        requires
            old(self).wf(),
        ensures
            best is None <==> old(self).is_idle(),
            old(self).pop_step(*final(self), best),
    {
        loop
            invariant
                self.wf(),
                old(self).discarding(*self),
            decreases self.index().len(),
        {
            let ghost before = *self;
            match self.idx_queue.pop() {
                None => {
                    proof {
                        self.lemma_no_record_no_order();
                        assert(old(self).discard_step(before));
                    }
                    return None;
                },
                Some(top) => {
                    if self.orders.contains_key(&top.id) {
                        let best = self.orders.remove(&top.id);
                        proof {
                            before.lemma_wf();
                            before.lemma_without_record(top);
                            before.lemma_wf_after_dropping(*self);
                            assert(old(self).discard_step(before));
                        }
                        return best;
                    }
                    self.stalled.remove(&top.id);
                    proof {
                        old(self).lemma_discard_one_more(before, *self);
                    }
                },
            }
        }
    }

    /// Without the record `c` the heap holds no record of its id; the records
    /// left are those of other ids, live or remembered as stale as before.
    proof fn lemma_without_record(self, c: OrderIndex)
        requires
            self.wf(),
            self.index().contains(c),
        ensures
            forall|r: OrderIndex| #[trigger]
                self.index().remove(c).contains(r) ==> r.id != c.id && self.index().contains(r) && (
                self.is_live(r.id) || self.stalled@.contains(r.id)),
    {
        assert forall|r: OrderIndex| #[trigger]
            self.index().remove(c).contains(r) implies r.id != c.id && self.index().contains(r) && (
        self.is_live(r.id) || self.stalled@.contains(r.id)) by {
            assert(self.index().contains(r) && self.index().contains(c));
            assert(self.idx_queue@.contains(r));
        }
    }

    /// A queue that holds no record holds no order.
    proof fn lemma_no_record_no_order(self)
        requires
            self.wf(),
            self.index().len() == 0,
        ensures
            self.orders() == Map::<u64, T>::empty(),
    {
        assert forall|id: u64| !self.orders().contains_key(id) by {
            if self.orders().contains_key(id) {
                assert(self.indexed(id));
            }
        }
    }

    /// Discarding the stale record on top of `mid` carries on what led from
    /// `self` to `mid`.
    proof fn lemma_discard_one_more(self, mid: Self, post: Self)
        requires
            mid.wf(),
            self.discarding(mid),
            mid.current() matches Some(c) && !mid.is_live(c.id) && post.index()
                == mid.index().remove(c) && post.stalled@ == mid.stalled@.remove(c.id),
            post.idx_queue.wf(),
            post.orders() == mid.orders(),
            post.cancels() == mid.cancels(),
            mid.same_settings(post),
        ensures
            post.wf(),
            self.discarding(post),
            post.index().len() < mid.index().len(),
    {
        mid.lemma_wf();
        let c = mid.current().unwrap();
        mid.lemma_without_record(c);
        mid.lemma_wf_after_dropping(post);
        assert forall|r: OrderIndex| #[trigger] self.dropped(post, r) implies !self.is_live(
            r.id,
        ) by {
            if r != c {
                assert(self.dropped(mid, r));
            }
        }
        assert forall|r: OrderIndex, q: OrderIndex|
            #[trigger] self.dropped(post, r) && #[trigger] post.index().contains(
                q,
            ) implies r.at_least(q) by {
            if !self.dropped(mid, r) {
                assert(r == c);
            }
        }
    }

    /// Re-prices a live order: its payload is replaced at once, the record
    /// it had is discarded and one record with the new price and timestamp
    /// takes its place. An id that is not live is refused and nothing
    /// changes.
    pub fn amend(&mut self, id: u64, price: u64, ts: u64, order: T) -> (accepted: bool)
        requires
            old(self).wf(),
        ensures
            accepted <==> old(self).is_live(id),
            old(self).amend_step(*final(self), id, price, ts, order, accepted),
    {
        if self.orders.contains_key(&id) {
            self.orders.insert(id, order);
            proof {
                old(self).lemma_wf_after_dropping(*self);
            }
            self.rebuild_idx(id, price, ts);
            true
        } else {
            false
        }
    }

    /// Removes a live order. Its record stays in the heap as a stale one and
    /// the id is remembered as stale, unless this cancel is the one that
    /// brings the count of cancels past the threshold: then every stale
    /// record is swept. An id that is not live is refused and nothing
    /// changes.
    pub fn cancel(&mut self, id: u64) -> (removed: bool)
        requires
            old(self).wf(),
        ensures
            removed <==> old(self).is_live(id),
            old(self).cancel_step(*final(self), id, removed),
    {
        if !self.orders.contains_key(&id) {
            return false;
        }
        self.orders.remove(&id);
        self.stalled.insert(id);
        proof {
            old(self).lemma_wf_after_dropping(*self);
        }
        self.clean_check();
        true
    }

    /// Counts one more cancel and sweeps when the count passes the threshold.
    fn clean_check(&mut self)
        requires
            old(self).wf(),
        ensures
            final(self).wf(),
            final(self).orders() == old(self).orders(),
            old(self).same_settings(*final(self)),
            old(self).cancels() + 1 > old(self).max_stalled() ==> {
                &&& final(self).cancels() == 0
                &&& final(self).index() == live_only(old(self).index(), old(self).orders().dom())
                &&& final(self).index().len() == final(self).orders().len()
            },
            old(self).cancels() + 1 <= old(self).max_stalled() ==> {
                &&& final(self).cancels() == old(self).cancels() + 1
                &&& final(self).index() == old(self).index()
                &&& final(self).current() == old(self).current()
            },
    {
        if self.op_counter >= self.max_stalled {
            self.op_counter = 0;
            proof {
                old(self).lemma_wf_after_dropping(*self);
            }
            self.remove_stalled()
        } else {
            self.op_counter += 1;
            proof {
                old(self).lemma_wf_after_dropping(*self);
            }
        }
    }

    /// Sweeps the heap: only the records of live orders stay, one for each.
    fn remove_stalled(&mut self)
        requires
            old(self).wf(),
        ensures
            final(self).wf(),
            final(self).orders() == old(self).orders(),
            final(self).cancels() == old(self).cancels(),
            old(self).same_settings(*final(self)),
            final(self).index() == live_only(old(self).index(), old(self).orders().dom()),
            final(self).index().len() == final(self).orders().len(),
    {
        let mut taken = IndexHeap::new();
        std::mem::swap(&mut self.idx_queue, &mut taken);
        let items = taken.into_vec();
        let active_orders = retain_live(&items, &self.orders);
        self.idx_queue = IndexHeap::from_vec(active_orders);
        self.stalled.clear();
        proof {
            old(self).lemma_wf_after_dropping(*self);
            self.lemma_count_without_stale();
        }
    }

    /// Rebuilds the heap with one fresh record for order `id` in place of
    /// the record it had.
    fn rebuild_idx(&mut self, id: u64, price: u64, ts: u64)
        requires
            old(self).wf(),
            old(self).is_live(id) || old(self).stalled@.contains(id),
        ensures
            final(self).wf(),
            final(self).orders() == old(self).orders(),
            final(self).stalled@ == old(self).stalled@,
            final(self).cancels() == old(self).cancels(),
            old(self).same_settings(*final(self)),
            final(self).index() == without_order(old(self).index(), id).insert(
                old(self).record(id, price, ts),
            ),
    {
        let mut taken = IndexHeap::new();
        std::mem::swap(&mut self.idx_queue, &mut taken);
        let items = taken.into_vec();
        let mut active_orders = retain_others(&items, id);
        let record = OrderIndex { id, price, timestamp: ts, order_side: self.queue_side };
        active_orders.push(record);
        proof {
            broadcast use group_to_multiset_ensures;

            let kept = active_orders@.drop_last();
            assert forall|k: int| 0 <= k < active_orders@.len() implies (
            #[trigger] active_orders@[k]).order_side == self.queue_side by {
                if k < kept.len() {
                    assert(old(self).index().contains(kept[k]));
                }
            }
        }
        self.idx_queue = IndexHeap::from_vec(active_orders);
        proof {
            old(self).lemma_wf_after_placing(*self, record);
        }
    }

    /// The id of the record on top of the heap.
    fn get_current_order_id(&self) -> (id: Option<u64>)
        requires
            self.wf(),
        ensures
            id == match self.current() {
                Some(c) => Some(c.id),
                None => None,
            },
    {
        match self.idx_queue.peek() {
            Some(top) => Some(top.id),
            None => None,
        }
    }
}

} // verus!
