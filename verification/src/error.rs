//! Errors of the engine's administrative surface.

use vstd::prelude::*;

verus! {

/// Reasons for which an administrative request to the engine can fail.
///
/// Order processing itself never fails: every well-typed message is
/// accepted, so no operation of the engine returns this type today.
#[derive(Debug)]
pub enum EngineError {
    /// No book exists for the named symbol.
    UnknownSymbol(String),
    /// An internal inconsistency, described in words.
    Internal(String),
}

} // verus!
