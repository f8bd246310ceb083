//! Framing: every message travels as `0x00 <JSON text> 0x00`, and an
//! outbound frame must fit the hard byte cap before anything is written.

use vstd::prelude::*;
use crate::json::{JVal, JsonValue, no_delim, trim, parse_val};
use crate::parse::{skip_ws, p_val};
use crate::types::HLAPIError;

verus! {

/// The message boundary byte.
pub const DELIM: u8 = 0;

/// Hard cap on one outbound frame, delimiters included.
pub const MAX_WRITE: usize = 4096;

/// A payload wrapped between two delimiter bytes.
pub open spec fn frame_bytes(payload: Seq<u8>) -> Seq<u8> {
    seq![0u8] + payload + seq![0u8]
}

/// What decoding a staged inbound frame yields: `UnexpectedEof` when the
/// leading or trailing delimiter is missing or short, `InvalidData` when the
/// payload between them does not decode, and otherwise the payload value.
/// The trailing delimiter is checked exactly where the payload decoder
/// stopped, never earlier or later.
pub open spec fn spec_decode_frame(buf: Seq<u8>) -> Result<JVal, HLAPIError> {
    if buf.len() == 0 || buf[0] != 0 {
        Err(HLAPIError::UnexpectedEof)
    } else {
        match parse_val(trim(buf.drop_first())) {
            Some((v, rest)) => if rest.len() == 0 || rest[0] != 0 {
                Err(HLAPIError::UnexpectedEof)
            } else {
                Ok(v)
            },
            None => Err(HLAPIError::InvalidData),
        }
    }
}

/// Stage one outbound frame: the payload between two delimiters, refused
/// whole (nothing ever partially written) when it would exceed the cap.
pub fn encode_frame(payload: Vec<u8>) -> (r: Result<Vec<u8>, HLAPIError>)
    ensures
        match r {
            Ok(out) => payload@.len() + 2 <= MAX_WRITE && out@ == frame_bytes(payload@),
            Err(e) => e == HLAPIError::PayloadTooLarge && payload@.len() + 2 > MAX_WRITE,
        },
{
    if payload.len() > MAX_WRITE - 2 {
        return Err(HLAPIError::PayloadTooLarge);
    }
    let mut out: Vec<u8> = Vec::new();
    out.push(DELIM);
    let mut p = payload;
    out.append(&mut p);
    out.push(DELIM);
    proof {
        assert(out@ =~= frame_bytes(payload@));
    }
    Ok(out)
}

/// Decode one staged inbound frame: exactly `spec_decode_frame`.
pub fn decode_frame(buf: &Vec<u8>) -> (r: Result<JsonValue, HLAPIError>)
    ensures
        match r {
            Ok(v) => spec_decode_frame(buf@) == Ok::<JVal, HLAPIError>(v.jv()),
            Err(e) => spec_decode_frame(buf@) == Err::<JVal, HLAPIError>(e),
        },
{
    if buf.len() == 0 || buf[0] != DELIM {
        return Err(HLAPIError::UnexpectedEof);
    }
    proof {
        assert(buf@.drop_first() =~= buf@.skip(1));
    }
    let t_pos = skip_ws(buf, 1);
    match p_val(buf, t_pos) {
        Some((v, end)) => {
            if end == buf.len() || buf[end] != DELIM {
                assert(end < buf@.len() ==> buf@.skip(end as int)[0] == buf@[end as int]);
                return Err(HLAPIError::UnexpectedEof);
            }
            assert(buf@.skip(end as int)[0] == buf@[end as int]);
            Ok(v)
        },
        None => Err(HLAPIError::InvalidData),
    }
}

/// The staged bytes a channel reset sends: one bare delimiter and nothing
/// else, so the remote parser discards whatever partial message it holds.
pub fn reset_frame() -> (r: Vec<u8>)
    ensures
        r@ == seq![0u8],
{
    let mut out: Vec<u8> = Vec::new();
    out.push(DELIM);
    proof {
        assert(out@ =~= seq![0u8]);
    }
    out
}

/// A delimiter-free payload makes the frame boundary unambiguous: the only
/// index that can pass for the end of the frame is the frame's actual end.
pub proof fn lemma_frame_boundary(payload: Seq<u8>, n: int)
    requires
        no_delim(payload),
        2 <= n <= frame_bytes(payload).len(),
        frame_bytes(payload)[n - 1] == 0,
    ensures
        n == frame_bytes(payload).len(),
{
    let buf = frame_bytes(payload);
    if n - 1 <= payload.len() {
        assert(buf[n - 1] == payload[n - 2]);
    }
}

/// Where the first complete frame in `buf` ends: the index just past the
/// first delimiter byte at or after position 1.  JSON text never contains a
/// raw NUL, so this is exactly the frame boundary.
pub fn frame_end(buf: &Vec<u8>) -> (r: Option<usize>)
    ensures
        match r {
            Some(n) => 2 <= n <= buf@.len() && buf@[n - 1] == 0 && forall|j: int|
                1 <= j < n - 1 ==> buf@[j] != 0,
            None => forall|j: int| 1 <= j < buf@.len() ==> buf@[j] != 0,
        },
{
    let mut i: usize = 1;
    while i < buf.len()
        invariant
            1 <= i,
            buf.len() > 0 ==> i <= buf.len(),
            forall|j: int| 1 <= j < i ==> buf@[j] != 0,
        decreases buf.len() - i,
    {
        if buf[i] == DELIM {
            return Some(i + 1);
        }
        i = i + 1;
    }
    None
}

} // verus!
