//! The order index and the book built on it, leaves first.

pub mod domain;
pub mod order_index;
pub mod index_heap;
pub mod order_queues;
pub mod order_book;
pub mod laws;
