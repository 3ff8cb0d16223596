//! Frames: each payload behind its length.
//!
//! On a stream a payload travels behind four bytes that give its length,
//! big-endian; the length counts the payload alone.

use vstd::prelude::*;
use crate::binary_codec::{
    be_bytes, be_value, encode_input, encode_output, input_payload, lemma_be_round_trip,
    lemma_input_payload_length, lemma_output_payload_length, output_payload, read_u32_be,
    write_u32_be, ProtocolError,
};
use crate::messages::{InputMessage, OutputMessage};

verus! {

/// The bytes of a length prefix.
pub const PREFIX_LEN: usize = 4;

/// A payload behind its length.
pub open spec fn framed(payload: Seq<u8>) -> Seq<u8> {
    be_bytes(payload.len() as u32) + payload
}

/// The length that the first four bytes of a buffer announce.
pub open spec fn announced_len(buf: Seq<u8>) -> int {
    be_value(buf.take(4)) as int
}

/// True when a buffer holds a whole frame at its start.
pub open spec fn holds_frame(buf: Seq<u8>) -> bool {
    buf.len() >= 4 && buf.len() >= 4 + announced_len(buf)
}

/// The length of the payload that a prefix announces.
pub fn frame_length(prefix: &[u8]) -> (len: usize)
    requires
        prefix@.len() >= 4,
    ensures
        len == announced_len(prefix@),
{
    proof {
        assert(be_value(prefix@.take(4)) == be_value(prefix@));
    }
    read_u32_be(prefix) as usize
}

/// The length of the first frame of a buffer, prefix included, if the
/// buffer holds the whole of it.
pub fn complete_frame(buf: &[u8]) -> (r: Option<usize>)
    ensures
        match r {
            Some(end) => holds_frame(buf@) && end == 4 + announced_len(buf@),
            None => !holds_frame(buf@),
        },
{
    if buf.len() < PREFIX_LEN {
        return None;
    }
    let len = frame_length(buf);
    if buf.len() - PREFIX_LEN < len {
        return None;
    }
    Some(PREFIX_LEN + len)
}

/// Appends the frame of one input message to `out`. A message whose
/// symbol may not go on the wire is refused, and `out` left as it was.
pub fn frame_input(msg: &InputMessage, out: &mut Vec<u8>) -> (r: Result<(), ProtocolError>)
    ensures
        match input_payload(msg@) {
            Some(payload) => r is Ok && final(out)@ == old(out)@ + framed(payload),
            None => r == Err::<(), ProtocolError>(ProtocolError::InvalidSymbol) && final(out)@
                == old(out)@,
        },
{
    let mut payload: Vec<u8> = Vec::new();
    match encode_input(msg, &mut payload) {
        Ok(()) => {
            proof {
                lemma_input_payload_length(msg@);
                assert(payload@ =~= input_payload(msg@)->0);
            }
            write_u32_be(payload.len() as u32, out);
            out.extend_from_slice(payload.as_slice());
            proof {
                assert(out@ =~= old(out)@ + framed(payload@));
            }
            Ok(())
        },
        Err(e) => Err(e),
    }
}

/// Appends the frame of one output message to `out`. A message whose
/// symbol may not go on the wire is refused, and `out` left as it was.
pub fn frame_output(msg: &OutputMessage, out: &mut Vec<u8>) -> (r: Result<(), ProtocolError>)
    ensures
        match output_payload(msg@) {
            Some(payload) => r is Ok && final(out)@ == old(out)@ + framed(payload),
            None => r == Err::<(), ProtocolError>(ProtocolError::InvalidSymbol) && final(out)@
                == old(out)@,
        },
{
    let mut payload: Vec<u8> = Vec::new();
    match encode_output(msg, &mut payload) {
        Ok(()) => {
            proof {
                lemma_output_payload_length(msg@);
                assert(payload@ =~= output_payload(msg@)->0);
            }
            write_u32_be(payload.len() as u32, out);
            out.extend_from_slice(payload.as_slice());
            proof {
                assert(out@ =~= old(out)@ + framed(payload@));
            }
            Ok(())
        },
        Err(e) => Err(e),
    }
}

/// A frame announces the length of its payload and holds the payload
/// after the prefix, whatever follows the frame.
pub proof fn lemma_frame_round_trip(payload: Seq<u8>, rest: Seq<u8>)
    requires
        payload.len() <= u32::MAX,
    ensures
        holds_frame(framed(payload) + rest),
        announced_len(framed(payload) + rest) == payload.len(),
        (framed(payload) + rest).subrange(4, 4 + payload.len() as int) == payload,
        (framed(payload) + rest).skip(4 + payload.len() as int) == rest,
{
    let buf = framed(payload) + rest;
    lemma_be_round_trip(payload.len() as u32);
    assert(buf.take(4) =~= be_bytes(payload.len() as u32));
    assert(buf.subrange(4, 4 + payload.len() as int) =~= payload);
    assert(buf.skip(4 + payload.len() as int) =~= rest);
}

} // verus!
