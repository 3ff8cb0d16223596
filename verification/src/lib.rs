//! A multi-symbol limit-order matching engine with its wire protocol.
//!
//! Each layer of the crate is stated against a mathematical model and
//! proved by Verus:
//!
//! - the per-symbol [`OrderBook`], which matches under price-time priority
//!   and reports changes of the top of the book; its model and the laws
//!   proved of it are in [`book_model`] and [`book_identifiers`];
//! - the [`MatchingEngine`], which owns one book per symbol and routes
//!   cancels through a record of where each order went;
//! - the codecs: [`binary_codec`] for the binary payloads, [`framing`] for
//!   the length prefix that carries them on a stream, and [`csv_codec`] for
//!   comma-separated lines;
//! - [`config`], the settings of a server that fronts the engine.
//!
//! Nothing here reads a socket, a file or the environment: the programs
//! around the library do, and hand it plain values.

pub mod side;
pub mod text;
pub mod order_type;
pub mod error;
pub mod top_of_book;
pub mod messages;
pub mod order;
pub mod book_model;
pub mod book_identifiers;
pub mod order_book;
pub mod matching_engine;
pub mod wire_types;
pub mod binary_codec;
pub mod framing;
pub mod csv_codec;
pub mod config;

pub use side::Side;
pub use order::Order;
pub use order_book::OrderBook;
pub use matching_engine::MatchingEngine;
pub use order_type::OrderType;
pub use error::EngineError;
pub use top_of_book::TopOfBookSnapshot;
pub use messages::{
    Ack, Cancel, CancelAck, InputMessage, NewOrder, OutputMessage, TopOfBook, TopOfBookQuery,
    Trade,
};
pub use binary_codec::{decode_input, decode_output, encode_input, encode_output, ProtocolError};
pub use config::Config;
