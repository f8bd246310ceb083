//! The streaming decoder: pull one element of a bulk result at a time.
//!
//! A streamed `invoke` response carries either `null` (no elements) or a
//! JSON array, between the usual delimiters.  The decoder walks the staged
//! buffer element by element, so a caller holds at most one decoded element
//! at a time; it never looks past the element it just delivered, and it
//! checks the trailing delimiter exactly when the array ends.

use vstd::prelude::*;
use crate::json::{JVal, JsonValue, trim, parse_val, parse_items};
use crate::parse::{skip_ws, p_val};
use crate::frame::spec_decode_frame;
use crate::types::HLAPIError;

verus! {

/// What a whole streamed payload holds: the elements of its array, none for
/// `null`, or the error class the stream fails with.
pub open spec fn stream_spec(buf: Seq<u8>) -> Result<Seq<JVal>, HLAPIError> {
    if buf.len() == 0 || buf[0] != 0 {
        Err(HLAPIError::UnexpectedEof)
    } else {
        let t = trim(buf.drop_first());
        if t.len() >= 4 && t[0] == 110 && t[1] == 117 && t[2] == 108 && t[3] == 108 {
            let r = t.skip(4);
            if r.len() == 0 || r[0] != 0 {
                Err(HLAPIError::UnexpectedEof)
            } else {
                Ok(Seq::empty())
            }
        } else if t.len() > 0 && t[0] == 91 {
            match parse_items(t.drop_first(), true) {
                Some((vs, r)) => if r.len() == 0 || r[0] != 0 {
                    Err(HLAPIError::UnexpectedEof)
                } else {
                    Ok(vs)
                },
                None => Err(HLAPIError::InvalidData),
            }
        } else {
            Err(HLAPIError::InvalidData)
        }
    }
}

enum StreamState {
    AtFirst,
    AtTail,
    Done,
    Failed(HLAPIError),
}

/// A pull-based decoder over one staged streamed response.
pub struct StreamDecoder {
    buf: Vec<u8>,
    pos: usize,
    count: usize,
    state: StreamState,
}

/// What the remaining bytes from `pos` promise about the whole stream.
spec fn tail_result(buf: Seq<u8>, pos: int, first: bool) -> Result<Seq<JVal>, HLAPIError> {
    match parse_items(buf.skip(pos), first) {
        Some((vs, r)) => if r.len() == 0 || r[0] != 0 {
            Err(HLAPIError::UnexpectedEof)
        } else {
            Ok(vs)
        },
        None => Err(HLAPIError::InvalidData),
    }
}

impl StreamDecoder {
    /// The staged bytes this decoder reads.
    pub closed spec fn src(self) -> Seq<u8> {
        self.buf@
    }

    /// How many elements have been delivered so far.
    pub closed spec fn delivered(self) -> nat {
        self.count as nat
    }

    /// The decoder's internal consistency: its position always accounts for
    /// exactly the elements delivered so far.
    pub closed spec fn wf(self) -> bool {
        &&& self.pos <= self.buf@.len()
        &&& self.count <= self.pos
        &&& match self.state {
            StreamState::Done => stream_spec(self.buf@) matches Ok(items) && items.len()
                == self.count,
            StreamState::Failed(e) => stream_spec(self.buf@) == Err::<Seq<JVal>, HLAPIError>(e),
            StreamState::AtFirst => self.count == 0 && self.at_inv(true),
            StreamState::AtTail => self.at_inv(false),
        }
    }

    spec fn at_inv(self, first: bool) -> bool {
        match tail_result(self.buf@, self.pos as int, first) {
            Ok(vs) => stream_spec(self.buf@) matches Ok(items) && items.len() == self.count
                + vs.len() && items.skip(self.count as int) == vs,
            Err(e) => stream_spec(self.buf@) == Err::<Seq<JVal>, HLAPIError>(e),
        }
    }

    /// How many elements have been delivered, as a value.
    pub fn delivered_count(&self) -> (r: usize)
        ensures
            r as nat == self.delivered(),
    {
        self.count
    }

    /// Open a streamed response: check the leading delimiter, then expect
    /// `null` (zero elements, trailing delimiter checked at once) or the
    /// opening of an array.  Failures are exactly the stream's own.
    pub fn new(buf: Vec<u8>) -> (r: Result<StreamDecoder, HLAPIError>)
        ensures
            match r {
                Ok(d) => d.wf() && d.delivered() == 0 && d.src() == buf@,
                Err(e) => stream_spec(buf@) == Err::<Seq<JVal>, HLAPIError>(e),
            },
    {
        if buf.len() == 0 || buf[0] != 0 {
            return Err(HLAPIError::UnexpectedEof);
        }
        proof {
            assert(buf@.drop_first() =~= buf@.skip(1));
        }
        let t_pos = skip_ws(&buf, 1);
        let ghost t = trim(buf@.skip(1));
        if t_pos == buf.len() {
            return Err(HLAPIError::InvalidData);
        }
        let b = buf[t_pos];
        assert(b == t[0]);
        if b == 110 {
            if buf.len() - t_pos >= 4 && buf[t_pos + 1] == 117 && buf[t_pos + 2] == 108 && buf[t_pos
                + 3] == 108 {
                proof {
                    assert(t.skip(4) =~= buf@.skip(t_pos as int + 4));
                }
                if t_pos + 4 == buf.len() || buf[t_pos + 4] != 0 {
                    return Err(HLAPIError::UnexpectedEof);
                }
                assert(buf@.skip(t_pos as int + 4)[0] == buf@[t_pos as int + 4]);
                Ok(StreamDecoder { buf, pos: t_pos + 4, count: 0, state: StreamState::Done })
            } else {
                assert(buf@.len() - t_pos >= 4 ==> t[1] == buf@[t_pos as int + 1] && t[2]
                    == buf@[t_pos as int + 2] && t[3] == buf@[t_pos as int + 3]);
                Err(HLAPIError::InvalidData)
            }
        } else if b == 91 {
            proof {
                assert(t.drop_first() =~= buf@.skip(t_pos as int + 1));
            }
            let d = StreamDecoder { buf, pos: t_pos + 1, count: 0, state: StreamState::AtFirst };
            proof {
                match parse_items(t.drop_first(), true) {
                    Some((vs, r)) => {
                        assert(vs.skip(0) =~= vs);
                    },
                    None => {},
                }
            }
            Ok(d)
        } else {
            Err(HLAPIError::InvalidData)
        }
    }

    /// Deliver the next element, `None` at the well-formed end of the
    /// stream, or the stream's own error.  Exactly one element is decoded
    /// per call; element `k` of the payload is the value of the `k`-th
    /// successful pull, so a caller that stops after `k` pulls has decoded
    /// exactly `k` elements, whatever follows them in the buffer.
    pub fn next_item(&mut self) -> (r: Result<Option<JsonValue>, HLAPIError>)
        requires
            old(self).wf(),
        ensures
            final(self).wf(),
            final(self).src() == old(self).src(),
            match r {
                Ok(Some(v)) => final(self).delivered() == old(self).delivered() + 1 && (
                stream_spec(old(self).src()) matches Ok(items) ==> old(self).delivered()
                    < items.len() && v.jv() == items[old(self).delivered() as int]),
                Ok(None) => final(self).delivered() == old(self).delivered() && (stream_spec(
                    old(self).src(),
                ) matches Ok(items) && items.len() == old(self).delivered()),
                Err(e) => stream_spec(old(self).src()) == Err::<Seq<JVal>, HLAPIError>(e),
            },
    {
        let first = match self.state {
            StreamState::AtFirst => true,
            StreamState::AtTail => false,
            StreamState::Done => {
                return Ok(None);
            },
            StreamState::Failed(e) => {
                return Err(e);
            },
        };
        let ghost s = self.buf@.skip(self.pos as int);
        let t_pos = skip_ws(&self.buf, self.pos);
        let ghost t = trim(s);
        assert(self.buf@.skip(t_pos as int) == t);
        if t_pos == self.buf.len() {
            self.state = StreamState::Failed(HLAPIError::InvalidData);
            return Err(HLAPIError::InvalidData);
        }
        let b = self.buf[t_pos];
        assert(b == t[0]);
        if b == 93 {
            proof {
                assert(t.drop_first() =~= self.buf@.skip(t_pos as int + 1));
            }
            if t_pos + 1 == self.buf.len() || self.buf[t_pos + 1] != 0 {
                self.state = StreamState::Failed(HLAPIError::UnexpectedEof);
                return Err(HLAPIError::UnexpectedEof);
            }
            assert(self.buf@.skip(t_pos as int + 1)[0] == self.buf@[t_pos as int + 1]);
            proof {
                let vs = Seq::<JVal>::empty();
                assert(parse_items(s, first) == Some((vs, self.buf@.skip(t_pos as int + 1))));
            }
            self.pos = t_pos + 1;
            self.state = StreamState::Done;
            return Ok(None);
        }
        let v_pos = if first {
            t_pos
        } else {
            if b != 44 {
                self.state = StreamState::Failed(HLAPIError::InvalidData);
                return Err(HLAPIError::InvalidData);
            }
            proof {
                assert(t.drop_first() =~= self.buf@.skip(t_pos as int + 1));
            }
            skip_ws(&self.buf, t_pos + 1)
        };
        let ghost u = if first { t } else { trim(t.drop_first()) };
        assert(self.buf@.skip(v_pos as int) == u);
        match p_val(&self.buf, v_pos) {
            Some((v, end)) => {
                proof {
                    match parse_items(self.buf@.skip(end as int), false) {
                        Some((vs2, rr)) => {
                            assert(parse_items(s, first) == Some(
                                (seq![v.jv()] + vs2, rr),
                            ));
                        },
                        None => {},
                    }
                }
                let ghost old_count = self.count;
                self.pos = end;
                self.count = self.count + 1;
                self.state = StreamState::AtTail;
                proof {
                    match tail_result(self.buf@, end as int, false) {
                        Ok(vs2) => {
                            match stream_spec(self.buf@) {
                                Ok(items) => {
                                    assert(items.skip(old_count as int) == seq![v.jv()] + vs2);
                                    assert(items.skip(old_count as int)[0] == items[
                                        old_count as int
                                    ]);
                                    assert(items.skip(old_count as int).skip(1) =~= items.skip(
                                        old_count as int + 1,
                                    ));
                                    assert((seq![v.jv()] + vs2).skip(1) =~= vs2);
                                },
                                Err(_) => {},
                            }
                        },
                        Err(_) => {},
                    }
                }
                Ok(Some(v))
            },
            None => {
                self.state = StreamState::Failed(HLAPIError::InvalidData);
                Err(HLAPIError::InvalidData)
            },
        }
    }
}

/// Streaming equivalence: a streamed payload holds exactly the elements an
/// aggregate decode of the same staged bytes yields — the elements of the
/// decoded array, or none when the payload is `null`.
pub proof fn lemma_stream_matches_aggregate(buf: Seq<u8>)
    ensures
        match stream_spec(buf) {
            Ok(items) => spec_decode_frame(buf) == Ok::<JVal, HLAPIError>(JVal::Arr(items)) || (
            items == Seq::<JVal>::empty() && spec_decode_frame(buf) == Ok::<JVal, HLAPIError>(
                JVal::Null,
            )),
            Err(_) => true,
        },
        match spec_decode_frame(buf) {
            Ok(v) => match v {
                JVal::Arr(items) => stream_spec(buf) == Ok::<Seq<JVal>, HLAPIError>(items),
                JVal::Null => stream_spec(buf) == Ok::<Seq<JVal>, HLAPIError>(Seq::empty()),
                _ => true,
            },
            Err(_) => true,
        },
{
    if buf.len() == 0 || buf[0] != 0 {
    } else {
        let t = trim(buf.drop_first());
        if t.len() >= 4 && t[0] == 110 && t[1] == 117 && t[2] == 108 && t[3] == 108 {
        } else if t.len() > 0 && t[0] == 91 {
        } else {
        }
    }
}

} // verus!
