use matching_engine::engine::domain::OrderSide;
use matching_engine::engine::order_index::OrderIndex;
use std::cmp::Ordering;

fn bid(id: u64, price: u64, timestamp: u64) -> OrderIndex {
    OrderIndex { id, price, timestamp, order_side: OrderSide::Buy }
}

fn ask(id: u64, price: u64, timestamp: u64) -> OrderIndex {
    OrderIndex { id, price, timestamp, order_side: OrderSide::Sell }
}

#[test]
fn higher_bid_ranks_first() {
    let low = bid(1, 100, 0);
    let high = bid(2, 101, 1);
    assert_eq!(high.cmp(&low), Ordering::Greater);
    assert_eq!(low.cmp(&high), Ordering::Less);
    assert!(high.ranks_above(&low));
    assert!(!low.ranks_above(&high));
}

#[test]
fn lower_ask_ranks_first() {
    let low = ask(1, 99, 5);
    let high = ask(2, 100, 1);
    assert_eq!(low.cmp(&high), Ordering::Greater);
    assert_eq!(high.cmp(&low), Ordering::Less);
    assert!(low.ranks_above(&high));
    assert!(!high.ranks_above(&low));
}

#[test]
fn earlier_timestamp_ranks_first_at_one_price() {
    let early = bid(1, 100, 1);
    let late = bid(2, 100, 2);
    assert_eq!(early.cmp(&late), Ordering::Greater);
    assert_eq!(late.cmp(&early), Ordering::Less);
    let early = ask(3, 99, 1);
    let late = ask(4, 99, 2);
    assert_eq!(early.cmp(&late), Ordering::Greater);
    assert_eq!(late.cmp(&early), Ordering::Less);
}

#[test]
fn same_price_and_time_tie_whatever_the_id() {
    let a = bid(1, 100, 7);
    let b = bid(2, 100, 7);
    assert_eq!(a.cmp(&b), Ordering::Equal);
    assert_eq!(b.cmp(&a), Ordering::Equal);
    assert!(!a.ranks_above(&b));
    assert!(!b.ranks_above(&a));
    assert!(a == b);
}

#[test]
fn equality_looks_at_price_and_time_only() {
    assert!(bid(1, 100, 7) == bid(9, 100, 7));
    assert!(bid(1, 100, 7) != bid(1, 101, 7));
    assert!(bid(1, 100, 7) != bid(1, 99, 7));
    assert!(bid(1, 100, 7) != bid(1, 100, 8));
}

#[test]
fn partial_cmp_agrees_with_cmp() {
    let a = bid(1, 100, 0);
    let b = bid(2, 101, 1);
    assert_eq!(a.partial_cmp(&b), Some(Ordering::Less));
    assert_eq!(b.partial_cmp(&a), Some(Ordering::Greater));
    assert_eq!(a.partial_cmp(&a), Some(Ordering::Equal));
    assert!(a < b);
    assert!(b > a);
    assert!(a <= a);
    let c = ask(3, 99, 2);
    let d = ask(4, 99, 1);
    assert_eq!(c.partial_cmp(&d), Some(Ordering::Less));
    assert!(d > c);
}

#[test]
fn side_flips_price_direction_only() {
    assert_eq!(bid(1, 10, 0).cmp(&bid(2, 20, 0)), Ordering::Less);
    assert_eq!(ask(1, 10, 0).cmp(&ask(2, 20, 0)), Ordering::Greater);
    assert_eq!(bid(1, 10, 0).cmp(&bid(2, 10, 1)), Ordering::Greater);
    assert_eq!(ask(1, 10, 0).cmp(&ask(2, 10, 1)), Ordering::Greater);
}

#[test]
fn extreme_prices_and_times_compare() {
    let top = bid(1, u64::MAX, 0);
    let bottom = bid(2, 0, u64::MAX);
    assert_eq!(top.cmp(&bottom), Ordering::Greater);
    let first = ask(3, 0, u64::MAX);
    let last = ask(4, u64::MAX, 0);
    assert_eq!(first.cmp(&last), Ordering::Greater);
    assert_eq!(bid(5, 7, 0).cmp(&bid(6, 7, u64::MAX)), Ordering::Greater);
}
