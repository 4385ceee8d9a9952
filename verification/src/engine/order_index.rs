//! Index records and the price-time priority that ranks them.
//!
//! Priority is a total preorder on the records of one side: a better price
//! is served first, and at one price the earlier timestamp is served first.
//! What "better" means depends on the side alone: the highest bid and the
//! lowest ask lead. Two records with the same price and timestamp are
//! served in no particular order, whatever their ids.

use vstd::prelude::*;
use std::cmp::Ordering;
use vstd::std_specs::cmp::PartialEqSpecImpl;
use vstd::std_specs::cmp::PartialOrdSpecImpl;
use crate::engine::domain::OrderSide;

verus! {

/// The key under which an order is ranked: small, copyable and never
/// changed once it has been handed to a queue.
#[derive(Debug, Clone, Copy)]
pub struct OrderIndex {
    /// The order this record stands for.
    pub id: u64,
    /// Limit price as a whole number: the greater number is the higher price.
    pub price: u64,
    /// When the order was placed or last re-priced, as the caller counts time.
    pub timestamp: u64,
    /// The side whose notion of a better price applies.
    pub order_side: OrderSide,
}

impl OrderIndex {
    /// `self` is served strictly before `other`.
    pub open spec fn outranks(self, other: OrderIndex) -> bool {
        if self.price != other.price {
            match self.order_side {
                OrderSide::Buy => self.price > other.price,
                OrderSide::Sell => self.price < other.price,
            }
        } else {
            self.timestamp < other.timestamp
        }
    }

    /// Same price, same timestamp: neither is served before the other.
    pub open spec fn ties(self, other: OrderIndex) -> bool {
        self.price == other.price && self.timestamp == other.timestamp
    }

    /// `self` is served no later than `other`.
    pub open spec fn at_least(self, other: OrderIndex) -> bool {
        !other.outranks(self)
    }

    /// The three-way form of the priority: `Greater` is served first.
    pub open spec fn compare(self, other: OrderIndex) -> Ordering {
        if self.outranks(other) {
            Ordering::Greater
        } else if self.ties(other) {
            Ordering::Equal
        } else {
            Ordering::Less
        }
    }

    /// Ranks `self` against `other` by price, then by time.
    pub fn cmp(&self, other: &Self) -> (o: Ordering)
        ensures
            o == self.compare(*other),
    {
        if self.price < other.price {
            match self.order_side {
                OrderSide::Sell => Ordering::Greater,
                OrderSide::Buy => Ordering::Less,
            }
        } else if self.price > other.price {
            match self.order_side {
                OrderSide::Buy => Ordering::Greater,
                OrderSide::Sell => Ordering::Less,
            }
        } else if self.timestamp < other.timestamp {
            Ordering::Greater
        } else if self.timestamp > other.timestamp {
            Ordering::Less
        } else {
            Ordering::Equal
        }
    }

    /// Whether `self` is served strictly before `other`.
    pub fn ranks_above(&self, other: &Self) -> (r: bool)
        ensures
            r == self.outranks(*other),
    {
        match self.cmp(other) {
            Ordering::Greater => true,
            Ordering::Equal => false,
            Ordering::Less => false,
        }
    }
}

impl PartialEq for OrderIndex {
    /// Two records are equal in rank when price and timestamp agree.
    fn eq(&self, other: &Self) -> (r: bool) {
        if self.price > other.price || self.price < other.price {
            false
        } else {
            self.timestamp == other.timestamp
        }
    }
}

impl PartialEqSpecImpl for OrderIndex {
    open spec fn obeys_eq_spec() -> bool {
        true
    }

    open spec fn eq_spec(&self, other: &Self) -> bool {
        self.ties(*other)
    }
}

impl Eq for OrderIndex {
}

impl PartialOrd for OrderIndex {
    fn partial_cmp(&self, other: &Self) -> (r: Option<Ordering>) {
        Some(self.cmp(other))
    }
}

impl PartialOrdSpecImpl for OrderIndex {
    open spec fn obeys_partial_cmp_spec() -> bool {
        true
    }

    open spec fn partial_cmp_spec(&self, other: &Self) -> Option<Ordering> {
        Some(self.compare(*other))
    }
}

/// Of two records of one side, one is served no later than the other.
pub proof fn lemma_priority_total(a: OrderIndex, b: OrderIndex)
    requires
        a.order_side == b.order_side,
    ensures
        a.at_least(b) || b.at_least(a),
        a.outranks(b) ==> a.at_least(b),
        a.at_least(a),
{
}

/// On one side, serving order is transitive.
pub proof fn lemma_priority_transitive(a: OrderIndex, b: OrderIndex, c: OrderIndex)
    requires
        a.order_side == b.order_side,
        b.order_side == c.order_side,
    ensures
        a.at_least(b) && b.at_least(c) ==> a.at_least(c),
        a.outranks(b) && b.at_least(c) ==> a.outranks(c),
        a.at_least(b) && b.outranks(c) ==> a.outranks(c),
{
}

/// What serving order means in prices: bids come out by falling price, asks
/// by rising price, and within one price by rising timestamp.
pub proof fn lemma_priority_in_prices(a: OrderIndex, b: OrderIndex)
    requires
        a.order_side == b.order_side,
        a.at_least(b),
    ensures
        a.order_side == OrderSide::Buy ==> a.price >= b.price,
        a.order_side == OrderSide::Sell ==> a.price <= b.price,
        a.price == b.price ==> a.timestamp <= b.timestamp,
{
}

} // verus!
