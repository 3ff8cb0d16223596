use matching_engine::binary_codec::{
    decode_input, decode_output, encode_input, encode_output, ProtocolError,
};
use matching_engine::wire_types::{
    validate_symbol_len, WireInputType, WireOutputType, MAX_SYMBOL_LEN, PROTOCOL_VERSION,
};
use matching_engine::{
    Ack, Cancel, CancelAck, InputMessage, NewOrder, OutputMessage, Side, TopOfBook, TopOfBookQuery,
    Trade,
};

fn new_order(symbol: &str) -> InputMessage {
    InputMessage::NewOrder(NewOrder {
        user_id: 0x01020304,
        symbol: symbol.to_string(),
        price: 0x0A0B0C0D,
        quantity: 0x11121314,
        side: Side::Sell,
        user_order_id: 0x05060708,
    })
}

fn input_bytes(msg: &InputMessage) -> Vec<u8> {
    let mut out = Vec::new();
    encode_input(msg, &mut out).expect("a message that can be written");
    out
}

fn output_bytes(msg: &OutputMessage) -> Vec<u8> {
    let mut out = Vec::new();
    encode_output(msg, &mut out).expect("a message that can be written");
    out
}

#[test]
fn new_order_bytes_are_laid_out_big_endian() {
    assert_eq!(
        input_bytes(&new_order("IBM")),
        vec![
            0, 1, 0, 0, 1, 2, 3, 4, 5, 6, 7, 8, 0x0A, 0x0B, 0x0C, 0x0D, 0x11, 0x12, 0x13, 0x14, 1,
            3, b'I', b'B', b'M'
        ]
    );
}

#[test]
fn cancel_flush_and_query_bytes() {
    let cancel = InputMessage::Cancel(Cancel { user_id: 1, user_order_id: 0xFFFFFFFF });
    assert_eq!(input_bytes(&cancel), vec![1, 1, 0, 0, 0, 0, 0, 1, 255, 255, 255, 255]);
    assert_eq!(input_bytes(&InputMessage::Flush), vec![2, 1, 0, 0]);
    let query = InputMessage::QueryTopOfBook(TopOfBookQuery { symbol: "XY".to_string() });
    assert_eq!(input_bytes(&query), vec![3, 1, 0, 0, 2, b'X', b'Y']);
}

#[test]
fn output_bytes_are_laid_out_as_documented() {
    let ack = OutputMessage::Ack(Ack { user_id: 1, user_order_id: 2, symbol: "A".to_string() });
    assert_eq!(output_bytes(&ack), vec![10, 1, 0, 0, 0, 0, 0, 1, 0, 0, 0, 2, 1, b'A']);
    let cancel_ack =
        OutputMessage::CancelAck(CancelAck { user_id: 1, user_order_id: 2, symbol: "A".to_string() });
    assert_eq!(output_bytes(&cancel_ack), vec![11, 1, 0, 0, 0, 0, 0, 1, 0, 0, 0, 2, 1, b'A']);
    let trade = OutputMessage::Trade(Trade {
        symbol: "AB".to_string(),
        user_id_buy: 1,
        user_order_id_buy: 2,
        user_id_sell: 3,
        user_order_id_sell: 4,
        price: 256,
        quantity: 65536,
    });
    assert_eq!(
        output_bytes(&trade),
        vec![
            12, 1, 0, 0, 2, b'A', b'B', 0, 0, 0, 1, 0, 0, 0, 2, 0, 0, 0, 3, 0, 0, 0, 4, 0, 0, 1, 0,
            0, 1, 0, 0
        ]
    );
    let top = OutputMessage::TopOfBook(TopOfBook {
        symbol: "A".to_string(),
        side: Side::Sell,
        price: 7,
        total_quantity: 0x01000000,
        eliminated: false,
    });
    assert_eq!(output_bytes(&top), vec![13, 1, 0, 0, 1, b'A', 1, 0, 0, 0, 0, 7, 1, 0, 0, 0]);
    let gone = OutputMessage::top_of_book_eliminated("A".to_string(), Side::Buy);
    assert_eq!(output_bytes(&gone), vec![13, 1, 0, 0, 1, b'A', 0, 1, 0, 0, 0, 0, 0, 0, 0, 0]);
}

#[test]
fn encode_appends_to_what_is_there() {
    let mut out = vec![9, 9];
    encode_input(&InputMessage::Flush, &mut out).unwrap();
    assert_eq!(out, vec![9, 9, 2, 1, 0, 0]);
}

#[test]
fn input_messages_round_trip() {
    let messages = vec![
        new_order("IBM"),
        new_order("A"),
        new_order("ABCDEFGHIJKLMNOPQRSTUVWXYZ012345"),
        new_order("\u{e9}\u{4e2d}\u{1f600}"),
        InputMessage::NewOrder(NewOrder {
            user_id: 0,
            symbol: "BTC-USD".to_string(),
            price: 0,
            quantity: 1,
            side: Side::Buy,
            user_order_id: u32::MAX,
        }),
        InputMessage::Cancel(Cancel { user_id: u32::MAX, user_order_id: 0 }),
        InputMessage::Flush,
        InputMessage::QueryTopOfBook(TopOfBookQuery { symbol: "IBM".to_string() }),
    ];
    for msg in messages {
        let bytes = input_bytes(&msg);
        assert_eq!(decode_input(&bytes), Ok(msg));
    }
}

#[test]
fn output_messages_round_trip() {
    let messages = vec![
        OutputMessage::ack(1, 2, "IBM".to_string()),
        OutputMessage::cancel_ack(3, 4, "<unknown>".to_string()),
        OutputMessage::trade("\u{e9}t\u{e9}".to_string(), 1, 2, 3, 4, 5, 6),
        OutputMessage::trade("IBM".to_string(), u32::MAX, 0, u32::MAX, 0, u32::MAX, 0),
        OutputMessage::top_of_book("IBM".to_string(), Side::Buy, 10, 100),
        OutputMessage::top_of_book("IBM".to_string(), Side::Sell, 0x12345678, 0x9ABCDEF0),
        OutputMessage::top_of_book_eliminated("IBM".to_string(), Side::Sell),
    ];
    for msg in messages {
        let bytes = output_bytes(&msg);
        assert_eq!(decode_output(&bytes), Ok(msg));
    }
}

#[test]
fn symbols_of_bad_length_are_not_written() {
    let mut out = vec![7];
    assert_eq!(encode_input(&new_order(""), &mut out), Err(ProtocolError::InvalidSymbol));
    assert_eq!(
        encode_input(&new_order("ABCDEFGHIJKLMNOPQRSTUVWXYZ0123456"), &mut out),
        Err(ProtocolError::InvalidSymbol)
    );
    let query = InputMessage::QueryTopOfBook(TopOfBookQuery { symbol: String::new() });
    assert_eq!(encode_input(&query, &mut out), Err(ProtocolError::InvalidSymbol));
    // Sixteen characters of two bytes each fit; seventeen do not.
    let two_bytes = "\u{e9}".repeat(16);
    assert!(encode_output(&OutputMessage::ack(1, 1, two_bytes), &mut Vec::new()).is_ok());
    let too_long = "\u{e9}".repeat(17);
    for msg in vec![
        OutputMessage::ack(1, 1, too_long.clone()),
        OutputMessage::cancel_ack(1, 1, too_long.clone()),
        OutputMessage::trade(too_long.clone(), 1, 1, 1, 1, 1, 1),
        OutputMessage::top_of_book(too_long.clone(), Side::Buy, 1, 1),
        OutputMessage::ack(1, 1, String::new()),
    ] {
        assert_eq!(encode_output(&msg, &mut out), Err(ProtocolError::InvalidSymbol));
    }
    assert_eq!(out, vec![7]);
}

#[test]
fn quantity_zero_is_written_but_not_read() {
    let msg = InputMessage::NewOrder(NewOrder {
        user_id: 1,
        symbol: "IBM".to_string(),
        price: 10,
        quantity: 0,
        side: Side::Buy,
        user_order_id: 1,
    });
    let bytes = input_bytes(&msg);
    assert_eq!(decode_input(&bytes), Err(ProtocolError::InvalidField("quantity")));
}

#[test]
fn short_buffers_are_truncated() {
    assert_eq!(decode_input(&[]), Err(ProtocolError::Truncated));
    assert_eq!(decode_input(&[0, 1, 0]), Err(ProtocolError::Truncated));
    assert_eq!(decode_output(&[10, 1, 0]), Err(ProtocolError::Truncated));
    let full = input_bytes(&new_order("IBM"));
    for len in 4..full.len() {
        assert_eq!(decode_input(&full[..len]), Err(ProtocolError::Truncated), "length {}", len);
    }
    let cancel = input_bytes(&InputMessage::Cancel(Cancel { user_id: 1, user_order_id: 2 }));
    for len in 4..cancel.len() {
        assert_eq!(decode_input(&cancel[..len]), Err(ProtocolError::Truncated));
    }
    let query = input_bytes(&InputMessage::QueryTopOfBook(TopOfBookQuery {
        symbol: "IBM".to_string(),
    }));
    for len in 4..query.len() {
        assert_eq!(decode_input(&query[..len]), Err(ProtocolError::Truncated));
    }
    for msg in vec![
        OutputMessage::ack(1, 2, "IBM".to_string()),
        OutputMessage::cancel_ack(1, 2, "IBM".to_string()),
        OutputMessage::trade("IBM".to_string(), 1, 2, 3, 4, 5, 6),
        OutputMessage::top_of_book("IBM".to_string(), Side::Buy, 10, 100),
    ] {
        let bytes = output_bytes(&msg);
        for len in 4..bytes.len() {
            assert_eq!(decode_output(&bytes[..len]), Err(ProtocolError::Truncated), "{:?} {}", msg, len);
        }
    }
}

#[test]
fn bytes_after_the_message_are_not_looked_at() {
    let mut bytes = input_bytes(&new_order("IBM"));
    bytes.extend_from_slice(&[1, 2, 3]);
    assert_eq!(decode_input(&bytes), Ok(new_order("IBM")));
    assert_eq!(decode_input(&[2, 1, 77, 88, 99]), Ok(InputMessage::Flush));
}

#[test]
fn version_is_judged_before_type() {
    assert_eq!(decode_input(&[0, 2, 0, 0]), Err(ProtocolError::VersionMismatch(2)));
    assert_eq!(decode_input(&[99, 0, 0, 0]), Err(ProtocolError::VersionMismatch(0)));
    assert_eq!(decode_output(&[99, 7, 0, 0]), Err(ProtocolError::VersionMismatch(7)));
    assert_eq!(decode_input(&[4, 1, 0, 0]), Err(ProtocolError::UnknownMessageType(4)));
    assert_eq!(decode_input(&[10, 1, 0, 0]), Err(ProtocolError::UnknownMessageType(10)));
    assert_eq!(decode_output(&[0, 1, 0, 0]), Err(ProtocolError::UnknownMessageType(0)));
    assert_eq!(decode_output(&[14, 1, 0, 0]), Err(ProtocolError::UnknownMessageType(14)));
}

#[test]
fn bad_fields_are_named() {
    let mut bytes = input_bytes(&new_order("IBM"));
    bytes[20] = 2;
    assert_eq!(decode_input(&bytes), Err(ProtocolError::InvalidField("side")));
    // The side is judged before the symbol and the quantity.
    bytes[21] = 0;
    bytes[16..20].copy_from_slice(&[0, 0, 0, 0]);
    assert_eq!(decode_input(&bytes), Err(ProtocolError::InvalidField("side")));
    bytes[20] = 0;
    assert_eq!(decode_input(&bytes), Err(ProtocolError::InvalidSymbol));
    let mut top = output_bytes(&OutputMessage::top_of_book("IBM".to_string(), Side::Buy, 10, 100));
    top[8] = 9;
    assert_eq!(decode_output(&top), Err(ProtocolError::InvalidField("side")));
}

#[test]
fn bad_symbols_are_refused() {
    let mut bytes = input_bytes(&new_order("IBM"));
    bytes[21] = 0;
    assert_eq!(decode_input(&bytes), Err(ProtocolError::InvalidSymbol));
    bytes[21] = 33;
    assert_eq!(decode_input(&bytes), Err(ProtocolError::InvalidSymbol));
    bytes[21] = 3;
    bytes[23] = 0xFF;
    assert_eq!(decode_input(&bytes), Err(ProtocolError::InvalidSymbol));
    // A length that is valid but larger than what follows is a short buffer.
    bytes[21] = 32;
    assert_eq!(decode_input(&bytes), Err(ProtocolError::Truncated));
    let mut query = vec![3, 1, 0, 0, 2, 0xC3, 0x28];
    assert_eq!(decode_input(&query), Err(ProtocolError::InvalidSymbol));
    query[6] = 0xA9;
    assert_eq!(
        decode_input(&query),
        Ok(InputMessage::QueryTopOfBook(TopOfBookQuery { symbol: "\u{e9}".to_string() }))
    );
    let mut ack = output_bytes(&OutputMessage::ack(1, 2, "IBM".to_string()));
    ack[12] = 0;
    assert_eq!(decode_output(&ack), Err(ProtocolError::InvalidSymbol));
    ack[12] = 3;
    ack[13] = 0x80;
    assert_eq!(decode_output(&ack), Err(ProtocolError::InvalidSymbol));
}

#[test]
fn eliminated_reads_from_any_byte_but_zero() {
    let mut top = output_bytes(&OutputMessage::top_of_book("A".to_string(), Side::Buy, 10, 100));
    top[7] = 5;
    assert_eq!(
        decode_output(&top),
        Ok(OutputMessage::TopOfBook(TopOfBook {
            symbol: "A".to_string(),
            side: Side::Buy,
            price: 10,
            total_quantity: 100,
            eliminated: true,
        }))
    );
}

#[test]
fn wire_types_and_limits() {
    assert_eq!(PROTOCOL_VERSION, 1);
    assert_eq!(MAX_SYMBOL_LEN, 32);
    assert!(!validate_symbol_len(0));
    assert!(validate_symbol_len(1));
    assert!(validate_symbol_len(32));
    assert!(!validate_symbol_len(33));
    assert_eq!(WireInputType::from_u8(0), Some(WireInputType::NewOrder));
    assert_eq!(WireInputType::from_u8(1), Some(WireInputType::Cancel));
    assert_eq!(WireInputType::from_u8(2), Some(WireInputType::Flush));
    assert_eq!(WireInputType::from_u8(3), Some(WireInputType::QueryTopOfBook));
    assert_eq!(WireInputType::from_u8(4), None);
    assert_eq!(WireOutputType::from_u8(9), None);
    assert_eq!(WireOutputType::from_u8(10), Some(WireOutputType::Ack));
    assert_eq!(WireOutputType::from_u8(11), Some(WireOutputType::CancelAck));
    assert_eq!(WireOutputType::from_u8(12), Some(WireOutputType::Trade));
    assert_eq!(WireOutputType::from_u8(13), Some(WireOutputType::TopOfBook));
    assert_eq!(WireOutputType::from_u8(14), None);
    for code in 0..=255u8 {
        if let Some(kind) = WireInputType::from_u8(code) {
            assert_eq!(kind.to_u8(), code);
        }
        if let Some(kind) = WireOutputType::from_u8(code) {
            assert_eq!(kind.to_u8(), code);
        }
    }
}
