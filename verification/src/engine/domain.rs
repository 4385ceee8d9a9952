//! Vocabulary shared by the index and the book.

use vstd::prelude::*;

verus! {

/// How an order asks to be executed.
#[derive(Debug, Clone, Copy, PartialEq, Eq, Structural)]
pub enum OrderType {
    /// Execute at once against whatever rests on the other side.
    Market,
    /// Rest in the book until the limit price can be met.
    Limit,
}

/// Which side of the book an order rests on. The side decides which
/// direction of price is the better one.
#[derive(Debug, Clone, Copy, PartialEq, Eq, Structural)]
pub enum OrderSide {
    /// A bid: the higher price is served first.
    Buy,
    /// An ask: the lower price is served first.
    Sell,
}

impl OrderSide {
    /// The side an order of this side trades against.
    pub open spec fn opposite(self) -> OrderSide {
        match self {
            OrderSide::Buy => OrderSide::Sell,
            OrderSide::Sell => OrderSide::Buy,
        }
    }
}

/// Marker for types that name a tradable asset.
pub trait Asset {
}

} // verus!
