use matching_engine::binary_codec::{decode_input, decode_output, ProtocolError, MAX_PAYLOAD_LEN};
use matching_engine::framing::{complete_frame, frame_input, frame_length, frame_output, PREFIX_LEN};
use matching_engine::{Cancel, InputMessage, NewOrder, OutputMessage, Side, TopOfBookQuery};

#[test]
fn frame_is_length_then_payload() {
    let mut out = vec![0xEE];
    frame_input(&InputMessage::Flush, &mut out).unwrap();
    assert_eq!(out, vec![0xEE, 0, 0, 0, 4, 2, 1, 0, 0]);
    let mut out = Vec::new();
    frame_input(&InputMessage::Cancel(Cancel { user_id: 1, user_order_id: 2 }), &mut out).unwrap();
    assert_eq!(out, vec![0, 0, 0, 12, 1, 1, 0, 0, 0, 0, 0, 1, 0, 0, 0, 2]);
    let mut out = Vec::new();
    frame_output(&OutputMessage::ack(1, 2, "AB".to_string()), &mut out).unwrap();
    assert_eq!(out, vec![0, 0, 0, 15, 10, 1, 0, 0, 0, 0, 0, 1, 0, 0, 0, 2, 2, b'A', b'B']);
}

#[test]
fn frames_in_a_stream_are_read_one_by_one() {
    let first = InputMessage::NewOrder(NewOrder {
        user_id: 1,
        symbol: "IBM".to_string(),
        price: 10,
        quantity: 100,
        side: Side::Buy,
        user_order_id: 1,
    });
    let second = InputMessage::QueryTopOfBook(TopOfBookQuery { symbol: "IBM".to_string() });
    let mut stream = Vec::new();
    frame_input(&first, &mut stream).unwrap();
    frame_input(&second, &mut stream).unwrap();
    frame_input(&InputMessage::Flush, &mut stream).unwrap();

    let mut read = Vec::new();
    let mut rest: &[u8] = &stream;
    while let Some(end) = complete_frame(rest) {
        assert_eq!(frame_length(rest), end - PREFIX_LEN);
        read.push(decode_input(&rest[PREFIX_LEN..end]).unwrap());
        rest = &rest[end..];
    }
    assert!(rest.is_empty());
    assert_eq!(read, vec![first, second, InputMessage::Flush]);
}

#[test]
fn partial_frames_are_not_complete() {
    let mut frame = Vec::new();
    frame_output(&OutputMessage::trade("IBM".to_string(), 1, 2, 3, 4, 5, 6), &mut frame).unwrap();
    for len in 0..frame.len() {
        assert_eq!(complete_frame(&frame[..len]), None, "{}", len);
    }
    assert_eq!(complete_frame(&frame), Some(frame.len()));
    assert_eq!(decode_output(&frame[4..]), Ok(OutputMessage::trade("IBM".to_string(), 1, 2, 3, 4, 5, 6)));
    frame.push(9);
    assert_eq!(complete_frame(&frame), Some(frame.len() - 1));
    assert_eq!(complete_frame(&[0, 0, 0, 0]), Some(4));
    assert_eq!(frame_length(&[0, 0, 1, 2]), 258);
    assert_eq!(frame_length(&[1, 0, 0, 0, 7, 7]), 1 << 24);
}

#[test]
fn messages_that_cannot_be_written_are_not_framed() {
    let mut out = vec![1, 2, 3];
    let bad = InputMessage::QueryTopOfBook(TopOfBookQuery { symbol: String::new() });
    assert_eq!(frame_input(&bad, &mut out), Err(ProtocolError::InvalidSymbol));
    assert_eq!(frame_output(&OutputMessage::ack(1, 1, "x".repeat(33)), &mut out), Err(ProtocolError::InvalidSymbol));
    assert_eq!(out, vec![1, 2, 3]);
}

#[test]
fn longest_payload_is_a_trade_with_a_long_symbol() {
    let mut out = Vec::new();
    frame_output(&OutputMessage::trade("x".repeat(32), 1, 2, 3, 4, 5, 6), &mut out).unwrap();
    assert_eq!(out.len(), PREFIX_LEN + MAX_PAYLOAD_LEN);
    assert_eq!(frame_length(&out), MAX_PAYLOAD_LEN);
}

#[test]
fn errors_in_words() {
    assert_eq!(ProtocolError::Truncated.message(), "Buffer truncated");
    assert_eq!(ProtocolError::UnknownMessageType(200).message(), "Unknown message type: 200");
    assert_eq!(
        ProtocolError::VersionMismatch(0).message(),
        "Protocol version mismatch: got 0, expected 1"
    );
    assert_eq!(ProtocolError::InvalidSymbol.message(), "Invalid symbol");
    assert_eq!(ProtocolError::InvalidField("side").message(), "Invalid field: side");
}
