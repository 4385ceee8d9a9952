use matching_engine::engine::domain::OrderSide;
use matching_engine::engine::order_queues::OrderQueue;

/// A payload that carries what the tests look at: id and price.
#[derive(Debug, Clone, PartialEq, Eq)]
struct Payload {
    id: u64,
    price: u64,
    note: &'static str,
}

fn pay(id: u64, price: u64) -> Payload {
    Payload { id, price, note: "" }
}

fn buy_queue(max_stalled: u64) -> OrderQueue<Payload> {
    OrderQueue::new(OrderSide::Buy, max_stalled, 8)
}

fn sell_queue(max_stalled: u64) -> OrderQueue<Payload> {
    OrderQueue::new(OrderSide::Sell, max_stalled, 8)
}

#[test]
fn higher_bid_is_shown_first() {
    let mut q = buy_queue(10);
    assert!(q.insert(1, 100, 0, pay(1, 100)));
    assert!(q.insert(2, 101, 1, pay(2, 101)));
    assert_eq!(q.peek().map(|p| p.id), Some(2));
}

#[test]
fn earlier_ask_is_shown_first_at_one_price() {
    let mut q = sell_queue(10);
    assert!(q.insert(3, 99, 2, pay(3, 99)));
    assert!(q.insert(4, 99, 1, pay(4, 99)));
    assert_eq!(q.peek().map(|p| p.id), Some(4));
}

#[test]
fn amended_order_pops_with_its_new_payload() {
    let mut q = buy_queue(10);
    assert!(q.insert(5, 100, 0, pay(5, 100)));
    assert!(q.amend(5, 105, 5, pay(5, 105)));
    assert_eq!(q.pop(), Some(pay(5, 105)));
    assert_eq!(q.pop(), None);
}

#[test]
fn cancelled_top_is_skipped_by_pop() {
    let mut q = buy_queue(10);
    assert!(q.insert(6, 50, 0, pay(6, 50)));
    assert!(q.insert(7, 60, 1, pay(7, 60)));
    assert!(q.cancel(7));
    assert_eq!(q.index_len(), 2);
    assert_eq!(q.pop().map(|p| p.id), Some(6));
    assert_eq!(q.index_len(), 0);
    assert_eq!(q.pop(), None);
}

#[test]
fn new_queue_is_empty() {
    let mut q = buy_queue(3);
    assert_eq!(q.len(), 0);
    assert_eq!(q.index_len(), 0);
    assert!(!q.contains(1));
    assert!(q.peek().is_none());
    assert!(q.pop().is_none());
    assert!(!q.modify_current_order(pay(1, 1)));
    assert!(!q.cancel(1));
    assert!(!q.amend(1, 1, 1, pay(1, 1)));
    assert_eq!(q.len(), 0);
    assert_eq!(q.index_len(), 0);
}

#[test]
fn buy_pops_come_by_falling_price_then_fifo() {
    let mut q = buy_queue(100);
    let input = [(1, 100, 4), (2, 102, 9), (3, 100, 1), (4, 98, 0), (5, 102, 3), (6, 101, 2)];
    for (id, price, ts) in input {
        assert!(q.insert(id, price, ts, pay(id, price)));
    }
    assert!(q.cancel(6));
    assert!(q.amend(4, 103, 10, pay(4, 103)));
    let mut out = Vec::new();
    while let Some(p) = q.pop() {
        out.push((p.id, p.price));
    }
    assert_eq!(out, vec![(4, 103), (5, 102), (2, 102), (3, 100), (1, 100)]);
}

#[test]
fn sell_pops_come_by_rising_price_then_fifo() {
    let mut q = sell_queue(100);
    let input = [(1, 100, 4), (2, 102, 9), (3, 100, 1), (4, 98, 0), (5, 102, 3), (6, 101, 2)];
    for (id, price, ts) in input {
        assert!(q.insert(id, price, ts, pay(id, price)));
    }
    assert!(q.cancel(4));
    assert!(q.amend(2, 99, 10, pay(2, 99)));
    let mut out = Vec::new();
    while let Some(p) = q.pop() {
        out.push((p.id, p.price));
    }
    assert_eq!(out, vec![(2, 99), (3, 100), (1, 100), (6, 101), (5, 102)]);
}

#[test]
fn peek_shows_what_pop_takes() {
    let mut q = buy_queue(10);
    assert!(q.insert(1, 10, 0, pay(1, 10)));
    assert!(q.insert(2, 30, 1, pay(2, 30)));
    assert!(q.insert(3, 20, 2, pay(3, 20)));
    for expected in [2u64, 3, 1] {
        assert_eq!(q.peek().map(|p| p.id), Some(expected));
        assert_eq!(q.peek().map(|p| p.id), Some(expected));
        assert_eq!(q.pop().map(|p| p.id), Some(expected));
    }
    assert!(q.peek().is_none());
}

#[test]
fn cancelled_order_is_never_served_before_any_sweep() {
    let mut q = buy_queue(1000);
    for id in 1..=5u64 {
        assert!(q.insert(id, 100 + id, id, pay(id, 100 + id)));
    }
    assert!(q.cancel(5));
    assert!(q.cancel(3));
    assert_eq!(q.index_len(), 5);
    assert!(!q.contains(5));
    assert!(!q.contains(3));
    assert_eq!(q.peek().map(|p| p.id), Some(4));
    assert_eq!(q.index_len(), 4);
    let mut out = Vec::new();
    while let Some(p) = q.pop() {
        out.push(p.id);
    }
    assert_eq!(out, vec![4, 2, 1]);
    assert_eq!(q.index_len(), 0);
}

#[test]
fn cancel_twice_is_refused_the_second_time() {
    let mut q = sell_queue(10);
    assert!(q.insert(1, 5, 0, pay(1, 5)));
    assert!(q.cancel(1));
    assert!(!q.cancel(1));
    assert!(!q.cancel(2));
    assert_eq!(q.len(), 0);
    assert_eq!(q.index_len(), 1);
    assert!(q.pop().is_none());
    assert_eq!(q.index_len(), 0);
}

#[test]
fn second_insert_of_an_id_is_refused_and_changes_nothing() {
    let mut q = buy_queue(10);
    assert!(q.insert(1, 100, 0, Payload { id: 1, price: 100, note: "first" }));
    assert!(!q.insert(1, 200, 1, Payload { id: 1, price: 200, note: "second" }));
    assert_eq!(q.len(), 1);
    assert_eq!(q.index_len(), 1);
    assert!(q.insert(2, 150, 2, pay(2, 150)));
    assert_eq!(q.pop().map(|p| p.id), Some(2));
    assert_eq!(q.pop(), Some(Payload { id: 1, price: 100, note: "first" }));
    assert_eq!(q.pop(), None);
}

#[test]
fn amend_of_unknown_id_is_refused_and_changes_nothing() {
    let mut q = buy_queue(10);
    assert!(q.insert(1, 100, 0, pay(1, 100)));
    assert!(!q.amend(2, 500, 1, pay(2, 500)));
    assert_eq!(q.len(), 1);
    assert_eq!(q.index_len(), 1);
    assert!(!q.contains(2));
    assert_eq!(q.pop(), Some(pay(1, 100)));
    assert_eq!(q.pop(), None);
}

#[test]
fn amend_moves_the_order_to_its_new_place() {
    let mut q = buy_queue(10);
    assert!(q.insert(1, 100, 0, pay(1, 100)));
    assert!(q.insert(2, 110, 1, pay(2, 110)));
    assert!(q.insert(3, 120, 2, pay(3, 120)));
    assert!(q.amend(3, 90, 3, pay(3, 90)));
    assert_eq!(q.index_len(), 3);
    assert_eq!(q.peek(), Some(&pay(2, 110)));
    assert!(q.amend(1, 130, 4, pay(1, 130)));
    assert_eq!(q.index_len(), 3);
    assert_eq!(q.peek(), Some(&pay(1, 130)));
    let mut out = Vec::new();
    while let Some(p) = q.pop() {
        out.push((p.id, p.price));
    }
    assert_eq!(out, vec![(1, 130), (2, 110), (3, 90)]);
}

#[test]
fn amend_to_a_later_time_loses_the_place_at_one_price() {
    let mut q = sell_queue(10);
    assert!(q.insert(1, 50, 1, pay(1, 50)));
    assert!(q.insert(2, 50, 2, pay(2, 50)));
    assert_eq!(q.peek().map(|p| p.id), Some(1));
    assert!(q.amend(1, 50, 3, pay(1, 50)));
    assert_eq!(q.peek().map(|p| p.id), Some(2));
}

#[test]
fn amend_of_a_cancelled_order_is_refused() {
    let mut q = buy_queue(10);
    assert!(q.insert(1, 100, 0, pay(1, 100)));
    assert!(q.cancel(1));
    assert!(!q.amend(1, 100, 1, pay(1, 100)));
    assert!(q.peek().is_none());
}

#[test]
fn sweep_runs_when_cancels_pass_the_threshold() {
    let mut q = buy_queue(2);
    for id in 1..=6u64 {
        assert!(q.insert(id, id, id, pay(id, id)));
    }
    assert!(q.cancel(1));
    assert_eq!((q.len(), q.index_len()), (5, 6));
    assert!(q.cancel(2));
    assert_eq!((q.len(), q.index_len()), (4, 6));
    assert!(q.cancel(3));
    assert_eq!((q.len(), q.index_len()), (3, 3));
    assert!(q.cancel(4));
    assert_eq!((q.len(), q.index_len()), (2, 3));
    assert!(!q.cancel(4));
    assert_eq!((q.len(), q.index_len()), (2, 3));
    let mut out = Vec::new();
    while let Some(p) = q.pop() {
        out.push((p.id, p.price));
    }
    assert_eq!(out, vec![(6, 6), (5, 5)]);
}

#[test]
fn sweep_leaves_live_orders_as_they_were() {
    let mut q = sell_queue(0);
    assert!(q.insert(1, 30, 0, Payload { id: 1, price: 30, note: "a" }));
    assert!(q.insert(2, 10, 1, Payload { id: 2, price: 10, note: "b" }));
    assert!(q.insert(3, 20, 2, Payload { id: 3, price: 20, note: "c" }));
    assert!(q.cancel(2));
    assert_eq!((q.len(), q.index_len()), (2, 2));
    assert_eq!(q.pop(), Some(Payload { id: 3, price: 20, note: "c" }));
    assert_eq!(q.pop(), Some(Payload { id: 1, price: 30, note: "a" }));
    assert_eq!(q.pop(), None);
}

#[test]
fn threshold_zero_sweeps_on_every_cancel() {
    let mut q = buy_queue(0);
    for id in 1..=4u64 {
        assert!(q.insert(id, id, 0, pay(id, id)));
    }
    for id in 1..=4u64 {
        assert!(q.cancel(id));
        assert_eq!(q.index_len(), q.len());
    }
    assert_eq!(q.index_len(), 0);
}

#[test]
fn largest_threshold_never_sweeps() {
    let mut q = buy_queue(u64::MAX);
    for id in 1..=20u64 {
        assert!(q.insert(id, id, 0, pay(id, id)));
    }
    for id in 1..=20u64 {
        assert!(q.cancel(id));
    }
    assert_eq!((q.len(), q.index_len()), (0, 20));
    assert!(q.peek().is_none());
    assert_eq!(q.index_len(), 0);
}

#[test]
fn peek_discards_the_stale_records_it_meets() {
    let mut q = buy_queue(100);
    assert!(q.insert(1, 10, 0, pay(1, 10)));
    assert!(q.insert(2, 20, 0, pay(2, 20)));
    assert!(q.insert(3, 30, 0, pay(3, 30)));
    assert!(q.insert(4, 5, 0, pay(4, 5)));
    assert!(q.cancel(3));
    assert!(q.cancel(2));
    assert!(q.cancel(4));
    assert_eq!(q.index_len(), 4);
    assert_eq!(q.peek(), Some(&pay(1, 10)));
    assert_eq!(q.index_len(), 2);
    assert_eq!(q.len(), 1);
}

#[test]
fn modify_current_order_replaces_the_payload_and_keeps_the_place() {
    let mut q = buy_queue(10);
    assert!(q.insert(1, 100, 0, pay(1, 100)));
    assert!(q.insert(2, 90, 1, pay(2, 90)));
    assert!(q.modify_current_order(Payload { id: 1, price: 100, note: "partly filled" }));
    assert_eq!(q.len(), 2);
    assert_eq!(q.index_len(), 2);
    assert_eq!(q.peek(), Some(&Payload { id: 1, price: 100, note: "partly filled" }));
    assert_eq!(q.pop(), Some(Payload { id: 1, price: 100, note: "partly filled" }));
    assert_eq!(q.pop(), Some(pay(2, 90)));
}

#[test]
fn modify_current_order_is_refused_on_a_stale_top() {
    let mut q = buy_queue(10);
    assert!(q.insert(1, 100, 0, pay(1, 100)));
    assert!(q.insert(2, 90, 1, pay(2, 90)));
    assert!(q.cancel(1));
    assert!(!q.modify_current_order(pay(9, 9)));
    assert_eq!(q.peek(), Some(&pay(2, 90)));
    assert!(q.modify_current_order(Payload { id: 2, price: 90, note: "changed" }));
    assert_eq!(q.pop(), Some(Payload { id: 2, price: 90, note: "changed" }));
    assert!(!q.modify_current_order(pay(9, 9)));
}

#[test]
fn an_id_can_come_back_after_its_order_was_popped() {
    let mut q = sell_queue(10);
    assert!(q.insert(1, 10, 0, pay(1, 10)));
    assert_eq!(q.pop(), Some(pay(1, 10)));
    assert!(q.insert(1, 12, 1, pay(1, 12)));
    assert_eq!(q.index_len(), 1);
    assert_eq!(q.pop(), Some(pay(1, 12)));
}

#[test]
fn an_id_can_come_back_after_a_sweep_took_its_record() {
    let mut q = buy_queue(0);
    assert!(q.insert(1, 100, 0, pay(1, 100)));
    assert!(q.insert(2, 70, 0, pay(2, 70)));
    assert!(q.cancel(1));
    assert_eq!(q.index_len(), 1);
    assert!(q.insert(1, 50, 1, pay(1, 50)));
    assert_eq!(q.index_len(), 2);
    assert_eq!(q.pop(), Some(pay(2, 70)));
    assert_eq!(q.pop(), Some(pay(1, 50)));
}

#[test]
fn contains_and_len_follow_the_live_orders() {
    let mut q = buy_queue(10);
    assert!(q.insert(1, 1, 0, pay(1, 1)));
    assert!(q.insert(2, 2, 0, pay(2, 2)));
    assert!(q.contains(1) && q.contains(2) && !q.contains(3));
    assert_eq!(q.len(), 2);
    assert!(q.cancel(1));
    assert!(!q.contains(1));
    assert_eq!(q.len(), 1);
    assert_eq!(q.pop().map(|p| p.id), Some(2));
    assert_eq!(q.len(), 0);
}

#[test]
fn many_orders_come_out_sorted() {
    let mut q = buy_queue(7);
    let mut expected = Vec::new();
    for id in 0..200u64 {
        let price = (id * 7919) % 101;
        assert!(q.insert(id, price, id, pay(id, price)));
        if id % 3 == 0 {
            assert!(q.cancel(id));
        } else {
            expected.push((price, id));
        }
    }
    expected.sort_by(|a, b| b.0.cmp(&a.0).then(a.1.cmp(&b.1)));
    let mut out = Vec::new();
    while let Some(p) = q.pop() {
        out.push((p.price, p.id));
    }
    assert_eq!(out, expected);
}

#[test]
fn an_id_inserted_anew_is_ranked_by_its_new_price() {
    let mut q = buy_queue(100);
    assert!(q.insert(1, 100, 0, pay(1, 100)));
    assert!(q.cancel(1));
    assert_eq!((q.len(), q.index_len()), (0, 1));
    assert!(q.insert(1, 50, 1, pay(1, 50)));
    assert_eq!((q.len(), q.index_len()), (1, 1));
    assert!(q.insert(2, 70, 2, pay(2, 70)));
    assert_eq!((q.len(), q.index_len()), (2, 2));
    assert_eq!(q.peek(), Some(&pay(2, 70)));
    assert_eq!(q.pop(), Some(pay(2, 70)));
    assert_eq!(q.pop(), Some(pay(1, 50)));
    assert_eq!(q.index_len(), 0);
    assert_eq!(q.pop(), None);
}

#[test]
fn an_id_inserted_anew_queues_by_its_new_time() {
    let mut q: OrderQueue<char> = OrderQueue::new(OrderSide::Buy, 10, 4);
    assert!(q.insert(7, 100, 1, 'A'));
    assert!(q.insert(6, 100, 2, 'B'));
    assert!(q.cancel(7));
    assert!(q.insert(7, 100, 3, 'C'));
    assert_eq!((q.len(), q.index_len()), (2, 2));
    assert_eq!(q.pop(), Some('B'));
    assert_eq!(q.pop(), Some('C'));
    assert_eq!(q.pop(), None);
}

#[test]
fn an_ask_inserted_anew_at_a_worse_price_waits_its_turn() {
    let mut q = sell_queue(100);
    assert!(q.insert(1, 10, 0, pay(1, 10)));
    assert!(q.insert(2, 20, 1, pay(2, 20)));
    assert!(q.cancel(1));
    assert!(q.insert(1, 30, 2, pay(1, 30)));
    assert_eq!(q.peek(), Some(&pay(2, 20)));
    assert_eq!(q.pop(), Some(pay(2, 20)));
    assert_eq!(q.pop(), Some(pay(1, 30)));
    assert_eq!(q.pop(), None);
}

#[test]
fn an_id_inserted_anew_with_the_same_price_and_time_has_one_record() {
    let mut q = buy_queue(100);
    assert!(q.insert(1, 100, 0, pay(1, 100)));
    assert!(q.cancel(1));
    assert!(q.insert(1, 100, 0, Payload { id: 1, price: 100, note: "again" }));
    assert_eq!((q.len(), q.index_len()), (1, 1));
    assert_eq!(q.pop(), Some(Payload { id: 1, price: 100, note: "again" }));
    assert_eq!(q.index_len(), 0);
    assert_eq!(q.pop(), None);
}

#[test]
fn an_id_inserted_anew_after_its_stale_record_was_discarded_has_one_record() {
    let mut q = buy_queue(100);
    assert!(q.insert(1, 100, 0, pay(1, 100)));
    assert!(q.cancel(1));
    assert!(q.peek().is_none());
    assert_eq!(q.index_len(), 0);
    assert!(q.insert(1, 90, 1, pay(1, 90)));
    assert_eq!((q.len(), q.index_len()), (1, 1));
    assert!(q.cancel(1));
    assert!(q.pop().is_none());
    assert!(q.insert(1, 80, 2, pay(1, 80)));
    assert_eq!((q.len(), q.index_len()), (1, 1));
    assert_eq!(q.pop(), Some(pay(1, 80)));
}

#[test]
fn amend_after_an_insert_anew_leaves_one_record() {
    let mut q = buy_queue(100);
    assert!(q.insert(1, 100, 0, pay(1, 100)));
    assert!(q.cancel(1));
    assert!(q.insert(1, 50, 1, pay(1, 50)));
    assert!(q.insert(2, 70, 2, pay(2, 70)));
    assert!(q.amend(1, 60, 3, pay(1, 60)));
    assert_eq!((q.len(), q.index_len()), (2, 2));
    assert_eq!(q.pop(), Some(pay(2, 70)));
    assert_eq!(q.pop(), Some(pay(1, 60)));
    assert_eq!(q.pop(), None);
}

#[test]
fn a_sweep_leaves_one_record_for_each_live_order_after_inserts_anew() {
    let mut q = buy_queue(3);
    for id in 1..=4u64 {
        assert!(q.insert(id, 10 * id, id, pay(id, 10 * id)));
    }
    assert!(q.cancel(1));
    assert!(q.insert(1, 45, 5, pay(1, 45)));
    assert!(q.cancel(2));
    assert!(q.insert(2, 5, 6, pay(2, 5)));
    assert_eq!((q.len(), q.index_len()), (4, 4));
    assert!(q.cancel(3));
    assert_eq!((q.len(), q.index_len()), (3, 4));
    assert!(q.cancel(4));
    assert_eq!((q.len(), q.index_len()), (2, 2));
    assert_eq!(q.pop(), Some(pay(1, 45)));
    assert_eq!(q.pop(), Some(pay(2, 5)));
    assert_eq!(q.pop(), None);
}
