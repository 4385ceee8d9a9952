//! Price-time priority order index for a limit order book.
//!
//! For one traded instrument pair the engine keeps, per side, the resting
//! orders that are still live, ranked by price and then by time, so that a
//! matching loop can always ask for the best live order, cancel any order
//! cheaply and re-price an order without touching the others.

pub mod engine;
