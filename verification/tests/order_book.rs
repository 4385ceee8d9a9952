use matching_engine::engine::domain::{OrderSide, OrderType};
use matching_engine::engine::order_book::{
    Order, OrderBook, MAX_STALLED_INDICES_IN_QUEUE, ORDER_QUEUE_INIT_CAPACITY,
};

fn order(id: u64, side: OrderSide, price: u64, number: u64) -> Order {
    Order {
        order_id: id,
        order_asset: String::from("BTC"),
        price_asset: String::from("USDT"),
        side,
        price,
        number,
    }
}

fn book() -> OrderBook {
    OrderBook::new(String::from("BTC"), String::from("USDT"))
}

#[test]
fn new_book_is_empty_on_both_sides() {
    let mut b = book();
    assert!(b.best(OrderSide::Buy).is_none());
    assert!(b.best(OrderSide::Sell).is_none());
    assert!(b.take_best(OrderSide::Buy).is_none());
    assert!(b.take_best(OrderSide::Sell).is_none());
    assert!(!b.cancel_order(1, OrderSide::Buy));
    assert!(!b.cancel_order(1, OrderSide::Sell));
}

#[test]
fn book_settings() {
    assert_eq!(MAX_STALLED_INDICES_IN_QUEUE, 10);
    assert_eq!(ORDER_QUEUE_INIT_CAPACITY, 500);
}

#[test]
fn release_order_goes_to_the_queue_of_its_side() {
    let mut b = book();
    assert!(b.release_order(order(1, OrderSide::Buy, 100, 5), 0));
    assert!(b.release_order(order(2, OrderSide::Sell, 105, 5), 1));
    assert_eq!(b.best(OrderSide::Buy).map(|o| o.order_id), Some(1));
    assert_eq!(b.best(OrderSide::Sell).map(|o| o.order_id), Some(2));
    assert!(!b.cancel_order(1, OrderSide::Sell));
    assert!(!b.cancel_order(2, OrderSide::Buy));
    assert!(b.cancel_order(1, OrderSide::Buy));
    assert!(b.best(OrderSide::Buy).is_none());
    assert_eq!(b.best(OrderSide::Sell).map(|o| o.order_id), Some(2));
}

#[test]
fn release_order_refuses_a_live_id_on_the_same_side() {
    let mut b = book();
    assert!(b.release_order(order(1, OrderSide::Buy, 100, 5), 0));
    assert!(!b.release_order(order(1, OrderSide::Buy, 120, 9), 1));
    assert_eq!(b.take_best(OrderSide::Buy), Some(order(1, OrderSide::Buy, 100, 5)));
    assert!(b.take_best(OrderSide::Buy).is_none());
}

#[test]
fn best_bid_is_highest_and_best_ask_is_lowest() {
    let mut b = book();
    for (id, price) in [(1u64, 100u64), (2, 102), (3, 101)] {
        assert!(b.release_order(order(id, OrderSide::Buy, price, 1), id));
    }
    for (id, price) in [(4u64, 110u64), (5, 108), (6, 109)] {
        assert!(b.release_order(order(id, OrderSide::Sell, price, 1), id));
    }
    let mut bids = Vec::new();
    while let Some(o) = b.take_best(OrderSide::Buy) {
        bids.push((o.order_id, o.price));
    }
    let mut asks = Vec::new();
    while let Some(o) = b.take_best(OrderSide::Sell) {
        asks.push((o.order_id, o.price));
    }
    assert_eq!(bids, vec![(2, 102), (3, 101), (1, 100)]);
    assert_eq!(asks, vec![(5, 108), (6, 109), (4, 110)]);
}

#[test]
fn amend_order_reprices_on_the_side_named() {
    let mut b = book();
    assert!(b.release_order(order(1, OrderSide::Sell, 110, 1), 0));
    assert!(b.release_order(order(2, OrderSide::Sell, 105, 1), 1));
    assert!(!b.amend_order(1, OrderSide::Buy, 100, 2, order(1, OrderSide::Buy, 100, 1)));
    assert!(b.amend_order(1, OrderSide::Sell, 100, 2, order(1, OrderSide::Sell, 100, 1)));
    assert_eq!(b.best(OrderSide::Sell), Some(&order(1, OrderSide::Sell, 100, 1)));
    assert!(b.best(OrderSide::Buy).is_none());
    assert!(!b.amend_order(9, OrderSide::Sell, 100, 3, order(9, OrderSide::Sell, 100, 1)));
}

#[test]
fn cancelled_order_leaves_the_book() {
    let mut b = book();
    assert!(b.release_order(order(1, OrderSide::Buy, 100, 1), 0));
    assert!(b.release_order(order(2, OrderSide::Buy, 101, 1), 1));
    assert!(b.cancel_order(2, OrderSide::Buy));
    assert!(!b.cancel_order(2, OrderSide::Buy));
    assert_eq!(b.take_best(OrderSide::Buy).map(|o| o.order_id), Some(1));
    assert!(b.take_best(OrderSide::Buy).is_none());
}

#[test]
fn book_sweeps_after_its_threshold() {
    let mut b = book();
    for id in 1..=30u64 {
        assert!(b.release_order(order(id, OrderSide::Sell, 1000 - id, 1), id));
    }
    for id in 1..=25u64 {
        assert!(b.cancel_order(id, OrderSide::Sell));
    }
    let mut out = Vec::new();
    while let Some(o) = b.take_best(OrderSide::Sell) {
        out.push(o.order_id);
    }
    assert_eq!(out, vec![30, 29, 28, 27, 26]);
}

#[test]
fn order_types_and_sides_compare() {
    assert_eq!(OrderType::Limit, OrderType::Limit);
    assert_ne!(OrderType::Market, OrderType::Limit);
    assert_eq!(OrderSide::Buy, OrderSide::Buy);
    assert_ne!(OrderSide::Buy, OrderSide::Sell);
    let side = OrderSide::Sell;
    let copy = side;
    assert_eq!(side, copy);
}
