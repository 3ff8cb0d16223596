use matching_engine::{NewOrder, Order, OrderBook, OrderType, OutputMessage, Side, TopOfBookSnapshot};

fn order(user_id: u32, price: u32, quantity: u32, side: Side, user_order_id: u32) -> NewOrder {
    NewOrder { user_id, symbol: "IBM".to_string(), price, quantity, side, user_order_id }
}

fn ack(user_id: u32, user_order_id: u32) -> OutputMessage {
    OutputMessage::ack(user_id, user_order_id, "IBM".to_string())
}

fn trade(buy: (u32, u32), sell: (u32, u32), price: u32, quantity: u32) -> OutputMessage {
    OutputMessage::trade("IBM".to_string(), buy.0, buy.1, sell.0, sell.1, price, quantity)
}

fn top(side: Side, price: u32, quantity: u32) -> OutputMessage {
    OutputMessage::top_of_book("IBM".to_string(), side, price, quantity)
}

fn gone(side: Side) -> OutputMessage {
    OutputMessage::top_of_book_eliminated("IBM".to_string(), side)
}

fn add(book: &mut OrderBook, msg: NewOrder) -> Vec<OutputMessage> {
    assert!(book.can_accept(&msg));
    book.add_order(&msg)
}

#[test]
fn new_book_is_empty() {
    let book = OrderBook::new("IBM");
    assert_eq!(book.symbol(), "IBM");
    assert_eq!(book.best_bid_price(), 0);
    assert_eq!(book.best_ask_price(), 0);
    assert_eq!(book.best_bid_quantity(), 0);
    assert_eq!(book.best_ask_quantity(), 0);
    assert_eq!(book.top_of_book_snapshot(), TopOfBookSnapshot::new(0, 0, 0, 0));
    assert_eq!(book.top_of_book_snapshot(), TopOfBookSnapshot::default());
}

#[test]
fn limit_order_that_does_not_cross_rests_in_full() {
    let mut book = OrderBook::new("IBM");
    assert_eq!(add(&mut book, order(1, 12, 30, Side::Sell, 1)), vec![ack(1, 1), top(Side::Sell, 12, 30)]);
    let out = add(&mut book, order(2, 11, 70, Side::Buy, 5));
    assert_eq!(out, vec![ack(2, 5), top(Side::Buy, 11, 70)]);
    assert_eq!(book.top_of_book_snapshot(), TopOfBookSnapshot::new(11, 70, 12, 30));
}

#[test]
fn best_prices_are_highest_bid_and_lowest_ask() {
    let mut book = OrderBook::new("IBM");
    add(&mut book, order(1, 10, 1, Side::Buy, 1));
    add(&mut book, order(1, 8, 2, Side::Buy, 2));
    add(&mut book, order(1, 9, 3, Side::Buy, 3));
    add(&mut book, order(1, 20, 4, Side::Sell, 4));
    add(&mut book, order(1, 15, 5, Side::Sell, 5));
    add(&mut book, order(1, 17, 6, Side::Sell, 6));
    assert_eq!(book.best_bid_price(), 10);
    assert_eq!(book.best_bid_quantity(), 1);
    assert_eq!(book.best_ask_price(), 15);
    assert_eq!(book.best_ask_quantity(), 5);
}

#[test]
fn quantity_at_best_price_is_the_sum_of_the_queue() {
    let mut book = OrderBook::new("IBM");
    add(&mut book, order(1, 10, 100, Side::Buy, 1));
    add(&mut book, order(2, 10, 50, Side::Buy, 2));
    let out = add(&mut book, order(3, 10, 7, Side::Buy, 3));
    assert_eq!(out, vec![ack(3, 3), top(Side::Buy, 10, 157)]);
    assert_eq!(book.best_bid_quantity(), 157);
}

#[test]
fn same_price_trades_oldest_first() {
    let mut book = OrderBook::new("IBM");
    add(&mut book, order(1, 10, 30, Side::Sell, 1));
    add(&mut book, order(2, 10, 30, Side::Sell, 2));
    add(&mut book, order(3, 10, 30, Side::Sell, 3));
    let out = add(&mut book, order(9, 10, 70, Side::Buy, 1));
    assert_eq!(
        out,
        vec![
            ack(9, 1),
            trade((9, 1), (1, 1), 10, 30),
            trade((9, 1), (2, 2), 10, 30),
            trade((9, 1), (3, 3), 10, 10),
            top(Side::Sell, 10, 20),
        ]
    );
}

#[test]
fn better_price_trades_before_older_order() {
    let mut book = OrderBook::new("IBM");
    add(&mut book, order(1, 12, 10, Side::Sell, 1));
    add(&mut book, order(2, 11, 10, Side::Sell, 2));
    add(&mut book, order(3, 13, 10, Side::Sell, 3));
    let out = add(&mut book, order(9, 12, 25, Side::Buy, 1));
    assert_eq!(
        out,
        vec![
            ack(9, 1),
            trade((9, 1), (2, 2), 11, 10),
            trade((9, 1), (1, 1), 12, 10),
            top(Side::Buy, 12, 5),
            top(Side::Sell, 13, 10),
        ]
    );
    assert_eq!(book.top_of_book_snapshot(), TopOfBookSnapshot::new(12, 5, 13, 10));
}

#[test]
fn sell_order_walks_bids_downwards() {
    let mut book = OrderBook::new("IBM");
    add(&mut book, order(1, 10, 10, Side::Buy, 1));
    add(&mut book, order(2, 12, 10, Side::Buy, 2));
    add(&mut book, order(3, 11, 10, Side::Buy, 3));
    let out = add(&mut book, order(9, 11, 30, Side::Sell, 7));
    assert_eq!(
        out,
        vec![
            ack(9, 7),
            trade((2, 2), (9, 7), 12, 10),
            trade((3, 3), (9, 7), 11, 10),
            top(Side::Buy, 10, 10),
            top(Side::Sell, 11, 10),
        ]
    );
}

#[test]
fn market_order_takes_all_depth_and_drops_the_rest() {
    let mut book = OrderBook::new("IBM");
    add(&mut book, order(1, 11, 10, Side::Sell, 1));
    add(&mut book, order(2, 15, 20, Side::Sell, 2));
    add(&mut book, order(3, 5, 1, Side::Buy, 3));
    let out = add(&mut book, order(9, 0, 100, Side::Buy, 1));
    assert_eq!(
        out,
        vec![
            ack(9, 1),
            trade((9, 1), (1, 1), 11, 10),
            trade((9, 1), (2, 2), 15, 20),
            gone(Side::Sell),
        ]
    );
    assert_eq!(book.top_of_book_snapshot(), TopOfBookSnapshot::new(5, 1, 0, 0));
}

#[test]
fn market_sell_trades_at_resting_bid_prices() {
    let mut book = OrderBook::new("IBM");
    add(&mut book, order(1, 11, 10, Side::Buy, 1));
    add(&mut book, order(2, 9, 20, Side::Buy, 2));
    let out = add(&mut book, order(9, 0, 15, Side::Sell, 1));
    assert_eq!(
        out,
        vec![
            ack(9, 1),
            trade((1, 1), (9, 1), 11, 10),
            trade((2, 2), (9, 1), 9, 5),
            top(Side::Buy, 9, 15),
        ]
    );
}

#[test]
fn order_of_quantity_zero_changes_nothing() {
    let mut book = OrderBook::new("IBM");
    add(&mut book, order(1, 11, 10, Side::Sell, 1));
    let out = add(&mut book, order(2, 11, 0, Side::Buy, 2));
    assert_eq!(out, vec![ack(2, 2)]);
    assert_eq!(book.top_of_book_snapshot(), TopOfBookSnapshot::new(0, 0, 11, 10));
}

#[test]
fn acknowledgement_carries_the_symbol_of_the_book() {
    let mut book = OrderBook::new("IBM");
    let mut msg = order(1, 11, 10, Side::Sell, 1);
    msg.symbol = "AAPL".to_string();
    let out = add(&mut book, msg);
    assert_eq!(out, vec![ack(1, 1), top(Side::Sell, 11, 10)]);
}

#[test]
fn cancel_of_unknown_order_is_acknowledged_and_changes_nothing() {
    let mut book = OrderBook::new("IBM");
    add(&mut book, order(1, 10, 100, Side::Buy, 1));
    let before = book.top_of_book_snapshot();
    for _ in 0..3 {
        let out = book.cancel_order(7, 7);
        assert_eq!(out, vec![OutputMessage::cancel_ack(7, 7, "IBM".to_string())]);
        assert_eq!(book.top_of_book_snapshot(), before);
    }
}

#[test]
fn cancel_behind_the_front_changes_quantity_only() {
    let mut book = OrderBook::new("IBM");
    add(&mut book, order(1, 10, 100, Side::Sell, 1));
    add(&mut book, order(2, 10, 50, Side::Sell, 2));
    add(&mut book, order(3, 10, 25, Side::Sell, 3));
    let out = book.cancel_order(2, 2);
    assert_eq!(
        out,
        vec![OutputMessage::cancel_ack(2, 2, "IBM".to_string()), top(Side::Sell, 10, 125)]
    );
    let out = add(&mut book, order(9, 10, 110, Side::Buy, 1));
    assert_eq!(
        out,
        vec![
            ack(9, 1),
            trade((9, 1), (1, 1), 10, 100),
            trade((9, 1), (3, 3), 10, 10),
            top(Side::Sell, 10, 15),
        ]
    );
}

#[test]
fn cancel_of_last_order_at_a_price_drops_the_level() {
    let mut book = OrderBook::new("IBM");
    add(&mut book, order(1, 10, 100, Side::Sell, 1));
    let out = book.cancel_order(1, 1);
    assert_eq!(out, vec![OutputMessage::cancel_ack(1, 1, "IBM".to_string()), gone(Side::Sell)]);
    assert_eq!(book.best_ask_price(), 0);
    assert_eq!(book.best_ask_quantity(), 0);
}

#[test]
fn cancel_away_from_the_top_reports_nothing() {
    let mut book = OrderBook::new("IBM");
    add(&mut book, order(1, 10, 100, Side::Buy, 1));
    add(&mut book, order(1, 9, 100, Side::Buy, 2));
    let out = book.cancel_order(1, 2);
    assert_eq!(out, vec![OutputMessage::cancel_ack(1, 2, "IBM".to_string())]);
}

#[test]
fn cancel_of_a_repeated_identifier_takes_the_lowest_price_first() {
    let mut book = OrderBook::new("IBM");
    add(&mut book, order(1, 30, 3, Side::Sell, 1));
    add(&mut book, order(1, 10, 1, Side::Sell, 1));
    add(&mut book, order(1, 20, 2, Side::Sell, 1));
    let out = book.cancel_order(1, 1);
    assert_eq!(
        out,
        vec![OutputMessage::cancel_ack(1, 1, "IBM".to_string()), top(Side::Sell, 20, 2)]
    );
    let out = book.cancel_order(1, 1);
    assert_eq!(
        out,
        vec![OutputMessage::cancel_ack(1, 1, "IBM".to_string()), top(Side::Sell, 30, 3)]
    );
    let out = book.cancel_order(1, 1);
    assert_eq!(out, vec![OutputMessage::cancel_ack(1, 1, "IBM".to_string()), gone(Side::Sell)]);
    let out = book.cancel_order(1, 1);
    assert_eq!(out, vec![OutputMessage::cancel_ack(1, 1, "IBM".to_string())]);
}

#[test]
fn cancel_searches_bids_before_asks() {
    let mut book = OrderBook::new("IBM");
    add(&mut book, order(1, 20, 2, Side::Sell, 1));
    add(&mut book, order(1, 10, 1, Side::Buy, 1));
    let out = book.cancel_order(1, 1);
    assert_eq!(out, vec![OutputMessage::cancel_ack(1, 1, "IBM".to_string()), gone(Side::Buy)]);
    assert_eq!(book.top_of_book_snapshot(), TopOfBookSnapshot::new(0, 0, 20, 2));
}

#[test]
fn flush_returns_the_book_to_its_start() {
    let mut book = OrderBook::new("IBM");
    add(&mut book, order(1, 10, 100, Side::Buy, 1));
    add(&mut book, order(1, 12, 100, Side::Sell, 2));
    book.flush();
    assert_eq!(book.symbol(), "IBM");
    assert!(book.top_of_book_snapshot().is_empty());
    book.flush();
    assert!(book.top_of_book_snapshot().is_empty());
    let out = add(&mut book, order(1, 10, 100, Side::Buy, 1));
    assert_eq!(out, vec![ack(1, 1), top(Side::Buy, 10, 100)]);
}

#[test]
fn room_is_refused_where_the_total_would_not_fit() {
    let mut book = OrderBook::new("IBM");
    add(&mut book, order(1, 10, u32::MAX - 5, Side::Buy, 1));
    assert!(book.can_accept(&order(2, 10, 5, Side::Buy, 2)));
    assert!(!book.can_accept(&order(2, 10, 6, Side::Buy, 2)));
    assert!(book.can_accept(&order(2, 9, 6, Side::Buy, 2)));
    assert!(book.can_accept(&order(2, 10, 6, Side::Sell, 2)));
    assert!(book.can_accept(&order(2, 0, u32::MAX, Side::Buy, 2)));
    let out = add(&mut book, order(2, 10, 5, Side::Buy, 2));
    assert_eq!(out, vec![ack(2, 2), top(Side::Buy, 10, u32::MAX)]);
}

#[test]
fn order_is_built_from_its_request() {
    let msg = order(4, 0, 9, Side::Sell, 6);
    assert_eq!(msg.order_type(), OrderType::Market);
    assert_eq!(order(4, 1, 9, Side::Sell, 6).order_type(), OrderType::Limit);
    let mut o = Order::from_new_order(&order(4, 17, 9, Side::Sell, 6), 1234);
    assert_eq!(o.user_id, 4);
    assert_eq!(o.user_order_id, 6);
    assert_eq!(o.symbol, "IBM");
    assert_eq!(o.price, 17);
    assert_eq!(o.quantity, 9);
    assert_eq!(o.remaining_qty, 9);
    assert_eq!(o.side, Side::Sell);
    assert_eq!(o.order_type, OrderType::Limit);
    assert_eq!(o.timestamp_ns, 1234);
    assert!(!o.is_filled());
    assert_eq!(o.fill(4), 4);
    assert_eq!(o.remaining_qty, 5);
    assert_eq!(o.fill(50), 5);
    assert_eq!(o.remaining_qty, 0);
    assert!(o.is_filled());
    assert_eq!(o.fill(1), 0);
    assert_eq!(o.quantity, 9);
}

#[test]
fn order_built_now_is_stamped_with_a_time_after_the_epoch() {
    let o = Order::from_new_order_now(&order(4, 17, 9, Side::Sell, 6));
    assert_eq!(o.remaining_qty, 9);
    assert!(o.timestamp_ns > 0);
    assert!(Order::current_timestamp_ns() >= o.timestamp_ns);
}

#[test]
fn side_letters() {
    assert_eq!(Side::Buy.as_char(), 'B');
    assert_eq!(Side::Sell.as_char(), 'S');
    assert_eq!(Side::from_char('B'), Some(Side::Buy));
    assert_eq!(Side::from_char('S'), Some(Side::Sell));
    assert_eq!(Side::from_char('b'), None);
    assert_eq!(Side::from_char('X'), None);
}

#[test]
fn snapshot_is_empty_without_prices() {
    assert!(TopOfBookSnapshot::new(0, 0, 0, 0).is_empty());
    assert!(TopOfBookSnapshot::new(0, 5, 0, 5).is_empty());
    assert!(!TopOfBookSnapshot::new(1, 0, 0, 0).is_empty());
    assert!(!TopOfBookSnapshot::new(0, 0, 1, 0).is_empty());
}

#[test]
fn clock_readings_become_nanoseconds() {
    assert_eq!(Order::timestamp_ns_from(0, 0), 0);
    assert_eq!(Order::timestamp_ns_from(0, 999_999_999), 999_999_999);
    assert_eq!(Order::timestamp_ns_from(1, 5), 1_000_000_005);
    assert_eq!(Order::timestamp_ns_from(1_700_000_000, 123_456_789), 1_700_000_000_123_456_789);
    // The largest count that fits, and the counts just beyond it.
    assert_eq!(Order::timestamp_ns_from(18_446_744_073, 709_551_615), u64::MAX);
    assert_eq!(Order::timestamp_ns_from(18_446_744_073, 709_551_614), u64::MAX - 1);
    assert_eq!(Order::timestamp_ns_from(18_446_744_073, 709_551_616), u64::MAX);
    assert_eq!(Order::timestamp_ns_from(18_446_744_073, u32::MAX), u64::MAX);
    assert_eq!(Order::timestamp_ns_from(18_446_744_074, 0), u64::MAX);
    assert_eq!(Order::timestamp_ns_from(u64::MAX, u32::MAX), u64::MAX);
}
