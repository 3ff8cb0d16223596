use matching_engine::csv_codec::{format_output_csv, format_output_legacy, parse_input_line};
use matching_engine::{MatchingEngine, OutputMessage, Side};

fn feed(engine: &mut MatchingEngine, input: &[&str]) -> Vec<OutputMessage> {
    let mut all = Vec::new();
    for line in input {
        let msg = parse_input_line(line).expect("a well-formed line");
        assert!(engine.can_accept(&msg));
        all.extend(engine.process_message(msg));
    }
    all
}

fn legacy(outputs: &[OutputMessage]) -> Vec<String> {
    outputs.iter().map(format_output_legacy).collect()
}

#[test]
fn single_cross_exact_fill() {
    let mut engine = MatchingEngine::new();
    let out = feed(&mut engine, &["N, 1, IBM, 10, 100, B, 1", "N, 2, IBM, 10, 100, S, 2"]);
    assert_eq!(
        legacy(&out),
        vec!["A, 1, 1", "B, B, 10, 100", "A, 2, 2", "T, 1, 1, 2, 2, 10, 100", "B, B, -, -"]
    );
}

#[test]
fn partial_fill_leaves_residual_on_book() {
    let mut engine = MatchingEngine::new();
    let out = feed(&mut engine, &["N, 1, IBM, 10, 100, B, 1", "N, 2, IBM, 9,   60, S, 2"]);
    assert_eq!(
        legacy(&out),
        vec!["A, 1, 1", "B, B, 10, 100", "A, 2, 2", "T, 1, 1, 2, 2, 10, 60", "B, B, 10, 40"]
    );
    let book = engine.get_book("IBM").expect("the book of IBM");
    assert_eq!(book.best_bid_price(), 10);
    assert_eq!(book.best_bid_quantity(), 40);
    assert_eq!(book.best_ask_price(), 0);
    assert_eq!(book.best_ask_quantity(), 0);
}

#[test]
fn market_order_with_no_liquidity() {
    let mut engine = MatchingEngine::new();
    let out = feed(&mut engine, &["N, 7, IBM, 0, 50, B, 42"]);
    assert_eq!(legacy(&out), vec!["A, 7, 42"]);
    let book = engine.get_book("IBM").expect("the book of IBM");
    assert!(book.top_of_book_snapshot().is_empty());
}

#[test]
fn cancel_updates_top_of_book() {
    let mut engine = MatchingEngine::new();
    let out = feed(
        &mut engine,
        &["N, 1, IBM, 10, 100, B, 1", "N, 1, IBM,  9,  50, B, 2", "C, 1, 1"],
    );
    assert_eq!(
        legacy(&out),
        vec!["A, 1, 1", "B, B, 10, 100", "A, 1, 2", "C, 1, 1", "B, B, 9, 50"]
    );
}

#[test]
fn unknown_cancel_is_acknowledged() {
    let mut engine = MatchingEngine::new();
    let out = feed(&mut engine, &["C, 99, 99"]);
    assert_eq!(legacy(&out), vec!["C, 99, 99"]);
    assert_eq!(out, vec![OutputMessage::cancel_ack(99, 99, "<unknown>".to_string())]);
    assert_eq!(format_output_csv(&out[0]), "C, 99, 99, <unknown>");
    assert_eq!(engine.num_symbols(), 0);
}

#[test]
fn query_on_empty_symbol() {
    let mut engine = MatchingEngine::new();
    let out = feed(&mut engine, &["Q, XYZ"]);
    assert_eq!(
        out,
        vec![
            OutputMessage::top_of_book_eliminated("XYZ".to_string(), Side::Buy),
            OutputMessage::top_of_book_eliminated("XYZ".to_string(), Side::Sell),
        ]
    );
    assert_eq!(legacy(&out), vec!["B, B, -, -", "B, S, -, -"]);
    assert_eq!(engine.num_symbols(), 0);
    assert!(engine.get_book("XYZ").is_none());
}
