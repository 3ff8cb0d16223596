use matching_engine::csv_codec::{
    format_output_csv, format_output_legacy, is_text_start, parse_input_line, take_line,
};
use matching_engine::{
    Cancel, InputMessage, NewOrder, OutputMessage, Side, TopOfBookQuery,
};

fn new_order(user_id: u32, symbol: &str, price: u32, quantity: u32, side: Side, id: u32) -> Option<InputMessage> {
    Some(InputMessage::NewOrder(NewOrder {
        user_id,
        symbol: symbol.to_string(),
        price,
        quantity,
        side,
        user_order_id: id,
    }))
}

#[test]
fn new_order_lines() {
    assert_eq!(parse_input_line("N, 1, IBM, 10, 100, B, 1"), new_order(1, "IBM", 10, 100, Side::Buy, 1));
    assert_eq!(parse_input_line("N,2,AAPL,0,5,S,77"), new_order(2, "AAPL", 0, 5, Side::Sell, 77));
    assert_eq!(
        parse_input_line("  N ,\t3 , BTC-USD ,  4294967295 , 1 , S , 0  \r\n"),
        new_order(3, "BTC-USD", 4294967295, 1, Side::Sell, 0)
    );
    assert_eq!(parse_input_line("N, +1, IBM, +10, 007, B, 1"), new_order(1, "IBM", 10, 7, Side::Buy, 1));
    assert_eq!(parse_input_line("New, 1, IBM, 10, 100, Buy, 1"), new_order(1, "IBM", 10, 100, Side::Buy, 1));
    assert_eq!(parse_input_line("N, 1, my sym, 10, 100, Sell, 1"), new_order(1, "my sym", 10, 100, Side::Sell, 1));
}

#[test]
fn white_space_of_unicode_is_trimmed() {
    assert_eq!(
        parse_input_line("\u{a0}N,\u{2003}1\u{3000}, IBM\u{85},\u{1680}10, 100\u{2028}, B\u{205f}, 1\u{202f}"),
        new_order(1, "IBM", 10, 100, Side::Buy, 1)
    );
    // A zero-width space is no white space.
    assert_eq!(parse_input_line("N, 1\u{200b}, IBM, 10, 100, B, 1"), None);
}

#[test]
fn new_order_lines_that_read_as_nothing() {
    for line in [
        "N, 1, IBM, 10, 0, B, 1",
        "N, 1, IBM, 10, 100, X, 1",
        "N, 1, IBM, 10, 100, b, 1",
        "N, 1, IBM, 10, 100, , 1",
        "N, 1, IBM, 10, 100, B",
        "N, 1, IBM, 10, 100, B, 1, 9",
        "N, 1, IBM, 10, 100, B, 1,",
        "N, -1, IBM, 10, 100, B, 1",
        "N, 1, IBM, 4294967296, 100, B, 1",
        "N, 1, IBM, 10, 99999999999999999999, B, 1",
        "N, 1, IBM, 1 0, 100, B, 1",
        "N, 1, IBM, 10, 1e2, B, 1",
        "N, 1, IBM, 10, +, B, 1",
        "N, 1, IBM, 10, ++1, B, 1",
        "N, 1, IBM, , 100, B, 1",
        "N, 1, IBM, 0x10, 100, B, 1",
        "N, 1, , 10, 100, B, 1",
        "N, 1, ABCDEFGHIJKLMNOPQRSTUVWXYZ0123456, 10, 100, B, 1",
        "n, 1, IBM, 10, 100, B, 1",
    ] {
        assert_eq!(parse_input_line(line), None, "{}", line);
    }
}

#[test]
fn cancel_flush_and_query_lines() {
    assert_eq!(
        parse_input_line("C, 1, 2"),
        Some(InputMessage::Cancel(Cancel { user_id: 1, user_order_id: 2 }))
    );
    assert_eq!(
        parse_input_line("Cancel,4294967295,0"),
        Some(InputMessage::Cancel(Cancel { user_id: 4294967295, user_order_id: 0 }))
    );
    assert_eq!(parse_input_line("C, 1"), None);
    assert_eq!(parse_input_line("C, 1, 2, 3"), None);
    assert_eq!(parse_input_line("C, a, 2"), None);
    assert_eq!(parse_input_line("F"), Some(InputMessage::Flush));
    assert_eq!(parse_input_line("  Flush  "), Some(InputMessage::Flush));
    assert_eq!(parse_input_line("F, 1"), None);
    assert_eq!(parse_input_line("F,"), None);
    assert_eq!(
        parse_input_line("Q, XYZ"),
        Some(InputMessage::QueryTopOfBook(TopOfBookQuery { symbol: "XYZ".to_string() }))
    );
    assert_eq!(
        parse_input_line("Q,\u{e9}"),
        Some(InputMessage::QueryTopOfBook(TopOfBookQuery { symbol: "\u{e9}".to_string() }))
    );
    assert_eq!(parse_input_line("Q"), None);
    assert_eq!(parse_input_line("Q, "), None);
    assert_eq!(parse_input_line("Q, A, B"), None);
}

#[test]
fn blank_lines_comments_and_strangers_read_as_nothing() {
    for line in ["", "   ", "\t\r\n", "# N, 1, IBM, 10, 100, B, 1", "   #F", "X, 1, 2", ",", ", N", "1, 2, 3"] {
        assert_eq!(parse_input_line(line), None, "{:?}", line);
    }
}

#[test]
fn lines_in_the_symbol_aware_form() {
    assert_eq!(format_output_csv(&OutputMessage::ack(1, 2, "IBM".to_string())), "A, 1, 2, IBM");
    assert_eq!(
        format_output_csv(&OutputMessage::cancel_ack(4294967295, 0, "IBM".to_string())),
        "C, 4294967295, 0, IBM"
    );
    assert_eq!(
        format_output_csv(&OutputMessage::trade("AAPL".to_string(), 1, 2, 3, 4, 105, 1000)),
        "T, AAPL, 1, 2, 3, 4, 105, 1000"
    );
    assert_eq!(
        format_output_csv(&OutputMessage::top_of_book("IBM".to_string(), Side::Buy, 10, 100)),
        "B, IBM, B, 10, 100"
    );
    assert_eq!(
        format_output_csv(&OutputMessage::top_of_book("IBM".to_string(), Side::Sell, 9, 90909)),
        "B, IBM, S, 9, 90909"
    );
    assert_eq!(
        format_output_csv(&OutputMessage::top_of_book_eliminated("IBM".to_string(), Side::Sell)),
        "B, IBM, S, -, -"
    );
}

#[test]
fn lines_in_the_compact_form() {
    assert_eq!(format_output_legacy(&OutputMessage::ack(1, 2, "IBM".to_string())), "A, 1, 2");
    assert_eq!(format_output_legacy(&OutputMessage::cancel_ack(10, 20, "IBM".to_string())), "C, 10, 20");
    assert_eq!(
        format_output_legacy(&OutputMessage::trade("AAPL".to_string(), 1, 2, 3, 4, 105, 1000)),
        "T, 1, 2, 3, 4, 105, 1000"
    );
    assert_eq!(
        format_output_legacy(&OutputMessage::top_of_book("IBM".to_string(), Side::Buy, 10, 100)),
        "B, B, 10, 100"
    );
    assert_eq!(
        format_output_legacy(&OutputMessage::top_of_book_eliminated("IBM".to_string(), Side::Buy)),
        "B, B, -, -"
    );
}

#[test]
fn numbers_are_written_as_std_writes_them() {
    for v in [0u32, 1, 9, 10, 11, 99, 100, 101, 1000, 65535, 1234567890, 4294967294, 4294967295] {
        let line = format_output_legacy(&OutputMessage::ack(v, v, String::new()));
        assert_eq!(line, format!("A, {}, {}", v, v));
        assert_eq!(
            parse_input_line(&format!("C, {}, {}", v, v)),
            Some(InputMessage::Cancel(Cancel { user_id: v, user_order_id: v }))
        );
    }
}

#[test]
fn text_is_read_as_std_reads_it() {
    let spaces = [
        '\u{9}', '\u{a}', '\u{b}', '\u{c}', '\u{d}', ' ', '\u{85}', '\u{a0}', '\u{1680}', '\u{2000}',
        '\u{2001}', '\u{2002}', '\u{2003}', '\u{2004}', '\u{2005}', '\u{2006}', '\u{2007}',
        '\u{2008}', '\u{2009}', '\u{200a}', '\u{2028}', '\u{2029}', '\u{202f}', '\u{205f}',
        '\u{3000}',
    ];
    for c in ['\u{8}', '\u{e}', '\u{1f}', '!', '\u{84}', '\u{86}', '\u{9f}', '\u{a1}', '\u{167f}',
        '\u{1681}', '\u{180e}', '\u{1fff}', '\u{200b}', '\u{2027}', '\u{202a}', '\u{202e}', '\u{2030}',
        '\u{205e}', '\u{2060}', '\u{2fff}', '\u{3001}', '\u{feff}'] {
        assert!(!c.is_whitespace());
        assert_eq!(parse_input_line(&format!("Q,{}", c)).is_some(), true, "{:?}", c);
        assert_eq!(parse_input_line(&format!("C, 1{}, 2", c)), None, "{:?}", c);
    }
    for c in spaces {
        assert!(c.is_whitespace());
        assert_eq!(parse_input_line(&format!("Q,{}", c)), None, "{:?}", c);
        assert_eq!(
            parse_input_line(&format!("{}C{},{}1{}, 2{}", c, c, c, c, c)),
            Some(InputMessage::Cancel(Cancel { user_id: 1, user_order_id: 2 })),
            "{:?}",
            c
        );
    }
    for text in ["0", "00", "+0", "4294967295", "+4294967295", "0004294967295", "4294967296",
        "42949672950", "-0", "", "+", "-", "+-1", "1+", " 1", "1_000", "१"] {
        let expected = text.parse::<u32>().ok();
        let got = match parse_input_line(&format!("C,{},7", text)) {
            Some(InputMessage::Cancel(c)) => Some(c.user_id),
            _ => None,
        };
        if text.trim() == text {
            assert_eq!(got, expected, "{:?}", text);
        }
    }
}

#[test]
fn first_byte_tells_text_from_binary() {
    for b in 0..=255u8 {
        assert_eq!(is_text_start(b), b == b'N' || b == b'C' || b == b'F' || b == b'Q', "{}", b);
    }
}

#[test]
fn lines_are_taken_one_by_one() {
    let mut buffer = b"F\nC, 1, 2\r\n\nQ, IB".to_vec();
    assert_eq!(take_line(&mut buffer), Some(b"F\n".to_vec()));
    assert_eq!(take_line(&mut buffer), Some(b"C, 1, 2\r\n".to_vec()));
    assert_eq!(take_line(&mut buffer), Some(b"\n".to_vec()));
    assert_eq!(take_line(&mut buffer), None);
    assert_eq!(buffer, b"Q, IB".to_vec());
    buffer.extend_from_slice(b"M\n");
    assert_eq!(take_line(&mut buffer), Some(b"Q, IBM\n".to_vec()));
    assert_eq!(take_line(&mut buffer), None);
    assert!(buffer.is_empty());
}
