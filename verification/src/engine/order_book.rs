//! The order book of one instrument pair: one queue of bids, one of asks.
//!
//! The book decides nothing about matching. It routes each request to the
//! queue of the side named and leaves the other queue alone; a matching
//! loop is built on `best`, `take_best` and the queues' own operations.

use vstd::prelude::*;
use crate::engine::domain::OrderSide;
use crate::engine::order_queues::OrderQueue;

verus! {

/// Cancels that may pile up in a queue of the book before it sweeps.
pub const MAX_STALLED_INDICES_IN_QUEUE: u64 = 10;

/// Room for orders that each queue of the book starts with.
pub const ORDER_QUEUE_INIT_CAPACITY: usize = 500;

/// A resting order.
#[derive(Debug, Clone, PartialEq, Eq)]
pub struct Order {
    /// Unique id of the order.
    pub order_id: u64,
    /// The asset that the quantity is counted in.
    pub order_asset: String,
    /// The asset that the price is counted in.
    pub price_asset: String,
    /// The side the order rests on.
    pub side: OrderSide,
    /// Limit price as a whole number: the greater number is the higher price.
    pub price: u64,
    /// Quantity still open, as a whole number.
    pub number: u64,
}

/// The resting orders of one instrument pair, by side.
pub struct OrderBook {
    order_asset: String,
    price_asset: String,
    buy_queue: OrderQueue<Order>,
    sell_queue: OrderQueue<Order>,
}

impl OrderBook {
    /// The asset that quantities are counted in.
    pub closed spec fn order_asset(self) -> Seq<char> {
        self.order_asset@
    }

    /// The asset that prices are counted in.
    pub closed spec fn price_asset(self) -> Seq<char> {
        self.price_asset@
    }

    /// The queue that holds the orders of `side`.
    pub closed spec fn queue(self, side: OrderSide) -> OrderQueue<Order> {
        match side {
            OrderSide::Buy => self.buy_queue,
            OrderSide::Sell => self.sell_queue,
        }
    }

    /// Both queues are consistent and each serves its own side.
    pub open spec fn wf(self) -> bool {
        &&& self.queue(OrderSide::Buy).wf()
        &&& self.queue(OrderSide::Sell).wf()
        &&& self.queue(OrderSide::Buy).side() == OrderSide::Buy
        &&& self.queue(OrderSide::Sell).side() == OrderSide::Sell
    }

    /// `post` differs from `self` in the queue of `side` at most.
    pub open spec fn touches_only(self, post: Self, side: OrderSide) -> bool {
        &&& post.queue(side.opposite()) == self.queue(side.opposite())
        &&& post.order_asset() == self.order_asset()
        &&& post.price_asset() == self.price_asset()
    }

    /// An empty book for the pair of `order_asset` and `price_asset`.
    pub fn new(order_asset: String, price_asset: String) -> (book: Self)
        ensures
            book.wf(),
            book.order_asset() == order_asset@,
            book.price_asset() == price_asset@,
            forall|side: OrderSide|
                {
                    &&& (#[trigger] book.queue(side)).is_idle()
                    &&& book.queue(side).index().len() == 0
                    &&& book.queue(side).cancels() == 0
                    &&& book.queue(side).max_stalled() == MAX_STALLED_INDICES_IN_QUEUE
                },
    {
        OrderBook {
            order_asset,
            price_asset,
            buy_queue: OrderQueue::new(
                OrderSide::Buy,
                MAX_STALLED_INDICES_IN_QUEUE,
                ORDER_QUEUE_INIT_CAPACITY,
            ),
            sell_queue: OrderQueue::new(
                OrderSide::Sell,
                MAX_STALLED_INDICES_IN_QUEUE,
                ORDER_QUEUE_INIT_CAPACITY,
            ),
        }
    }

    /// Submits `order` to the queue of its side, ranked by its price and by
    /// `timestamp`. Refused when an order of that id is live on that side.
    pub fn release_order(&mut self, order: Order, timestamp: u64) -> (accepted: bool)
        requires
            old(self).wf(),
        ensures
            final(self).wf(),
            accepted <==> !old(self).queue(order.side).is_live(order.order_id),
            old(self).touches_only(*final(self), order.side),
            old(self).queue(order.side).insert_step(
                final(self).queue(order.side),
                order.order_id,
                order.price,
                timestamp,
                order,
                accepted,
            ),
    {
        match order.side {
            OrderSide::Buy => self.buy_queue.insert(order.order_id, order.price, timestamp, order),
            OrderSide::Sell => self.sell_queue.insert(
                order.order_id,
                order.price,
                timestamp,
                order,
            ),
        }
    }

    /// Re-prices the live order `id` of `side`: `order` becomes its payload
    /// and it is ranked anew by `new_price` and `timestamp`.
    pub fn amend_order(
        &mut self,
        id: u64,
        side: OrderSide,
        new_price: u64,
        timestamp: u64,
        order: Order,
    ) -> (accepted: bool)
        requires
            old(self).wf(),
        ensures
            final(self).wf(),
            accepted <==> old(self).queue(side).is_live(id),
            old(self).touches_only(*final(self), side),
            old(self).queue(side).amend_step(
                final(self).queue(side),
                id,
                new_price,
                timestamp,
                order,
                accepted,
            ),
    {
        match side {
            OrderSide::Buy => self.buy_queue.amend(id, new_price, timestamp, order),
            OrderSide::Sell => self.sell_queue.amend(id, new_price, timestamp, order),
        }
    }

    /// Cancels the live order `id` of `side`.
    pub fn cancel_order(&mut self, id: u64, side: OrderSide) -> (removed: bool)
        requires
            old(self).wf(),
        ensures
            final(self).wf(),
            removed <==> old(self).queue(side).is_live(id),
            old(self).touches_only(*final(self), side),
            old(self).queue(side).cancel_step(final(self).queue(side), id, removed),
    {
        match side {
            OrderSide::Buy => self.buy_queue.cancel(id),
            OrderSide::Sell => self.sell_queue.cancel(id),
        }
    }

    /// The best live order of `side`, left in place.
    pub fn best(&mut self, side: OrderSide) -> (best: Option<&Order>)
        requires
            old(self).wf(),
        ensures
            final(self).wf(),
            best is None <==> old(self).queue(side).is_idle(),
            old(self).touches_only(*final(self), side),
            old(self).queue(side).peek_step(
                final(self).queue(side),
                match best {
                    Some(order) => Some(*order),
                    None => None,
                },
            ),
    {
        match side {
            OrderSide::Buy => self.buy_queue.peek(),
            OrderSide::Sell => self.sell_queue.peek(),
        }
    }

    /// Takes the best live order of `side` out of the book.
    pub fn take_best(&mut self, side: OrderSide) -> (best: Option<Order>)
        requires
            old(self).wf(),
        ensures
            final(self).wf(),
            best is None <==> old(self).queue(side).is_idle(),
            old(self).touches_only(*final(self), side),
            old(self).queue(side).pop_step(final(self).queue(side), best),
    {
        match side {
            OrderSide::Buy => self.buy_queue.pop(),
            OrderSide::Sell => self.sell_queue.pop(),
        }
    }
}

} // verus!
