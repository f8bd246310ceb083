//! The JSON value model and the byte-level grammar of the wire format.
//!
//! Every envelope travels as JSON text between two NUL delimiter bytes.  The
//! payloads the protocol carries are null, booleans, integers, strings,
//! arrays and objects; strings are kept as raw byte sequences (the unescaped
//! content).  `ser_jv` gives the exact byte sequence a value is encoded as,
//! and `parse_val` gives the exact result of decoding a byte sequence, so
//! that the codec's contracts can speak about both directions precisely.

use vstd::prelude::*;

verus! {

/// An executable JSON value.  The wire protocol never carries fractional
/// numbers, so numbers are modelled as signed 64-bit integers; a payload
/// with a fraction or exponent is rejected by the decoder.
#[derive(Debug, PartialEq, Eq)]
pub enum JsonValue {
    Null,
    Bool(bool),
    Int(i64),
    Str(Vec<u8>),
    Arr(Vec<JsonValue>),
    Obj(Vec<(Vec<u8>, JsonValue)>),
}

/// The mathematical model of a JSON value: what the contracts speak about.
pub enum JVal {
    Null,
    Bool(bool),
    Int(int),
    Str(Seq<u8>),
    Arr(Seq<JVal>),
    Obj(Seq<(Seq<u8>, JVal)>),
}

/// Model of a sequence of executable values.
pub open spec fn jv_seq(s: Seq<JsonValue>) -> Seq<JVal>
    decreases s,
{
    Seq::new(
        s.len(),
        |i: int|
            if 0 <= i < s.len() {
                s[i].jv()
            } else {
                JVal::Null
            },
    )
}

/// Model of a sequence of executable object properties.
pub open spec fn jv_props(s: Seq<(Vec<u8>, JsonValue)>) -> Seq<(Seq<u8>, JVal)>
    decreases s,
{
    Seq::new(
        s.len(),
        |i: int|
            if 0 <= i < s.len() {
                (s[i].0@, s[i].1.jv())
            } else {
                (Seq::empty(), JVal::Null)
            },
    )
}

impl JsonValue {
    /// The model of this value.
    pub open spec fn jv(self) -> JVal
        decreases self,
    {
        match self {
            JsonValue::Null => JVal::Null,
            JsonValue::Bool(b) => JVal::Bool(b),
            JsonValue::Int(i) => JVal::Int(i as int),
            JsonValue::Str(s) => JVal::Str(s@),
            JsonValue::Arr(xs) => JVal::Arr(jv_seq(xs@)),
            JsonValue::Obj(ps) => JVal::Obj(jv_props(ps@)),
        }
    }
}

impl JVal {
    /// Integers the executable model can hold: the signed 64-bit range.
    pub open spec fn wf(self) -> bool
        decreases self,
    {
        match self {
            JVal::Null => true,
            JVal::Bool(_) => true,
            JVal::Int(i) => i64::MIN <= i <= i64::MAX,
            JVal::Str(_) => true,
            JVal::Arr(es) => wf_seq(es),
            JVal::Obj(ps) => wf_props(ps),
        }
    }
}

/// Every element of the sequence is encodable.
pub open spec fn wf_seq(es: Seq<JVal>) -> bool
    decreases es,
{
    es.len() == 0 || (es[0].wf() && wf_seq(es.drop_first()))
}

/// Every property value of the sequence is encodable.
pub open spec fn wf_props(ps: Seq<(Seq<u8>, JVal)>) -> bool
    decreases ps,
{
    ps.len() == 0 || (ps[0].1.wf() && wf_props(ps.drop_first()))
}

// ---------------------------------------------------------------------------
// Serialization: the exact bytes a value is written as.
// ---------------------------------------------------------------------------

/// Lower-case hexadecimal digit for a nibble.
pub open spec fn hex_digit(n: int) -> u8 {
    if n < 10 { (48 + n) as u8 } else { (87 + n) as u8 }
}

/// How one string byte is written: `"` and `\` get a backslash escape,
/// control bytes become `\u00XX`, everything else is written as itself.
pub open spec fn esc_byte(b: u8) -> Seq<u8> {
    if b == 34 {
        seq![92u8, 34u8]
    } else if b == 92 {
        seq![92u8, 92u8]
    } else if b < 32 {
        seq![92u8, 117u8, 48u8, 48u8, hex_digit(b as int / 16), hex_digit(b as int % 16)]
    } else {
        seq![b]
    }
}

/// The escaped form of a whole string body.
pub open spec fn esc(s: Seq<u8>) -> Seq<u8>
    decreases s.len(),
{
    if s.len() == 0 {
        Seq::empty()
    } else {
        esc_byte(s[0]) + esc(s.drop_first())
    }
}

/// Decimal digits of a natural number, most significant first.
pub open spec fn dec_digits(n: nat) -> Seq<u8>
    decreases n,
{
    if n < 10 {
        seq![(48 + n) as u8]
    } else {
        dec_digits(n / 10) + seq![(48 + (n % 10)) as u8]
    }
}

/// The bytes an integer is written as.
pub open spec fn ser_int(i: int) -> Seq<u8> {
    if i < 0 {
        seq![45u8] + dec_digits((-i) as nat)
    } else {
        dec_digits(i as nat)
    }
}

/// The bytes a value is written as: compact JSON, no whitespace.
pub open spec fn ser_jv(v: JVal) -> Seq<u8>
    decreases v,
{
    match v {
        JVal::Null => seq![110u8, 117u8, 108u8, 108u8],
        JVal::Bool(b) => if b {
            seq![116u8, 114u8, 117u8, 101u8]
        } else {
            seq![102u8, 97u8, 108u8, 115u8, 101u8]
        },
        JVal::Int(i) => ser_int(i),
        JVal::Str(s) => seq![34u8] + esc(s) + seq![34u8],
        JVal::Arr(es) => seq![91u8] + ser_items(es) + seq![93u8],
        JVal::Obj(ps) => seq![123u8] + ser_props(ps) + seq![125u8],
    }
}

/// The elements of an array, comma separated.
pub open spec fn ser_items(es: Seq<JVal>) -> Seq<u8>
    decreases es,
{
    if es.len() == 0 {
        Seq::empty()
    } else {
        ser_jv(es[0]) + ser_items_tail(es.drop_first())
    }
}

/// The elements after the first one, each preceded by a comma.
pub open spec fn ser_items_tail(es: Seq<JVal>) -> Seq<u8>
    decreases es,
{
    if es.len() == 0 {
        Seq::empty()
    } else {
        seq![44u8] + ser_jv(es[0]) + ser_items_tail(es.drop_first())
    }
}

/// One object property: quoted key, colon, value.
pub open spec fn ser_prop(p: (Seq<u8>, JVal)) -> Seq<u8>
    decreases p,
{
    seq![34u8] + esc(p.0) + seq![34u8, 58u8] + ser_jv(p.1)
}

/// The properties of an object, comma separated.
pub open spec fn ser_props(ps: Seq<(Seq<u8>, JVal)>) -> Seq<u8>
    decreases ps,
{
    if ps.len() == 0 {
        Seq::empty()
    } else {
        ser_prop(ps[0]) + ser_props_tail(ps.drop_first())
    }
}

/// The properties after the first one, each preceded by a comma.
pub open spec fn ser_props_tail(ps: Seq<(Seq<u8>, JVal)>) -> Seq<u8>
    decreases ps,
{
    if ps.len() == 0 {
        Seq::empty()
    } else {
        seq![44u8] + ser_prop(ps[0]) + ser_props_tail(ps.drop_first())
    }
}

/// No byte of the sequence is the frame delimiter.
pub open spec fn no_delim(s: Seq<u8>) -> bool {
    forall|i: int| 0 <= i < s.len() ==> s[i] != 0
}

// ---------------------------------------------------------------------------
// Parsing: the exact result of decoding a byte sequence.  Each function
// consumes a prefix and returns the value together with the unconsumed rest.
// ---------------------------------------------------------------------------

/// JSON insignificant whitespace.
pub open spec fn is_ws(b: u8) -> bool {
    b == 32 || b == 9 || b == 10 || b == 13
}

/// The sequence with leading whitespace removed.
pub open spec fn trim(s: Seq<u8>) -> Seq<u8>
    decreases s.len(),
{
    if s.len() > 0 && is_ws(s[0]) {
        trim(s.drop_first())
    } else {
        s
    }
}

pub open spec fn is_digit(b: u8) -> bool {
    48 <= b <= 57
}

/// Length of the maximal run of decimal digits at the front.
pub open spec fn digits_len(s: Seq<u8>) -> int
    decreases s.len(),
{
    if s.len() > 0 && is_digit(s[0]) {
        1 + digits_len(s.drop_first())
    } else {
        0
    }
}

/// Value of a sequence of decimal digits, most significant first.
pub open spec fn digits_val(s: Seq<u8>) -> int
    decreases s.len(),
{
    if s.len() == 0 {
        0
    } else {
        digits_val(s.drop_last()) * 10 + (s.last() - 48)
    }
}

pub open spec fn is_hex(b: u8) -> bool {
    is_digit(b) || (97 <= b <= 102) || (65 <= b <= 70)
}

/// Value of one hexadecimal digit, either case.
pub open spec fn hex_val(b: u8) -> int {
    if is_digit(b) {
        b - 48
    } else if 97 <= b <= 102 {
        b - 87
    } else {
        b - 55
    }
}

/// The single byte a short escape stands for, if it is one.
pub open spec fn unesc(c: u8) -> Option<u8> {
    if c == 34 {
        Some(34u8)
    } else if c == 92 {
        Some(92u8)
    } else if c == 47 {
        Some(47u8)
    } else if c == 98 {
        Some(8u8)
    } else if c == 102 {
        Some(12u8)
    } else if c == 110 {
        Some(10u8)
    } else if c == 114 {
        Some(13u8)
    } else if c == 116 {
        Some(9u8)
    } else {
        None
    }
}

/// Decode a string body after the opening quote: the content bytes and the
/// rest after the closing quote.  Unescaped control bytes are rejected, as
/// is any `\uXXXX` escape above 255 (the content model is bytes).
pub open spec fn parse_str_rest(s: Seq<u8>) -> Option<(Seq<u8>, Seq<u8>)>
    decreases s.len(),
{
    if s.len() == 0 {
        None
    } else if s[0] == 34 {
        Some((Seq::empty(), s.drop_first()))
    } else if s[0] == 92 {
        if s.len() < 2 {
            None
        } else if s[1] == 117 {
            if s.len() >= 6 && is_hex(s[2]) && is_hex(s[3]) && is_hex(s[4]) && is_hex(s[5]) {
                let v = hex_val(s[2]) * 4096 + hex_val(s[3]) * 256 + hex_val(s[4]) * 16 + hex_val(
                    s[5],
                );
                if v <= 255 {
                    match parse_str_rest(s.skip(6)) {
                        Some((c, r)) => Some((seq![v as u8] + c, r)),
                        None => None,
                    }
                } else {
                    None
                }
            } else {
                None
            }
        } else {
            match unesc(s[1]) {
                Some(b) => match parse_str_rest(s.skip(2)) {
                    Some((c, r)) => Some((seq![b] + c, r)),
                    None => None,
                },
                None => None,
            }
        }
    } else if s[0] < 32 {
        None
    } else {
        match parse_str_rest(s.drop_first()) {
            Some((c, r)) => Some((seq![s[0]] + c, r)),
            None => None,
        }
    }
}

/// Decode an unsigned number body: the maximal digit run at the front.
/// Rejects a leading zero before further digits, and a following `.`, `e`
/// or `E` (no fractional numbers on this wire).
pub open spec fn parse_num_body(s: Seq<u8>) -> Option<(int, Seq<u8>)> {
    let k = digits_len(s);
    if k == 0 {
        None
    } else if s[0] == 48 && k > 1 {
        None
    } else if k < s.len() && (s[k] == 46 || s[k] == 101 || s[k] == 69) {
        None
    } else {
        Some((digits_val(s.take(k)), s.skip(k)))
    }
}

/// Decode one value at the very front of `s` (no leading whitespace).
pub open spec fn parse_val(s: Seq<u8>) -> Option<(JVal, Seq<u8>)>
    decreases s.len(), 0int,
{
    if s.len() == 0 {
        None
    } else {
        let b = s[0];
        if b == 110 {
            if s.len() >= 4 && s[1] == 117 && s[2] == 108 && s[3] == 108 {
                Some((JVal::Null, s.skip(4)))
            } else {
                None
            }
        } else if b == 116 {
            if s.len() >= 4 && s[1] == 114 && s[2] == 117 && s[3] == 101 {
                Some((JVal::Bool(true), s.skip(4)))
            } else {
                None
            }
        } else if b == 102 {
            if s.len() >= 5 && s[1] == 97 && s[2] == 108 && s[3] == 115 && s[4] == 101 {
                Some((JVal::Bool(false), s.skip(5)))
            } else {
                None
            }
        } else if b == 34 {
            match parse_str_rest(s.drop_first()) {
                Some((c, r)) => Some((JVal::Str(c), r)),
                None => None,
            }
        } else if b == 91 {
            match parse_items(s.drop_first(), true) {
                Some((vs, r)) => Some((JVal::Arr(vs), r)),
                None => None,
            }
        } else if b == 123 {
            match parse_props(s.drop_first(), true) {
                Some((ps, r)) => Some((JVal::Obj(ps), r)),
                None => None,
            }
        } else if b == 45 {
            match parse_num_body(s.drop_first()) {
                Some((n, r)) => if n <= 9223372036854775808int {
                    Some((JVal::Int(-n), r))
                } else {
                    None
                },
                None => None,
            }
        } else if is_digit(b) {
            match parse_num_body(s) {
                Some((n, r)) => if n <= 9223372036854775807int {
                    Some((JVal::Int(n), r))
                } else {
                    None
                },
                None => None,
            }
        } else {
            None
        }
    }
}

/// Decode the inside of an array after `[`.  With `first` the next thing is
/// the first element or `]`; otherwise a comma must come before the next
/// element.  The length guards only cut branches no input reaches: removing
/// whitespace never lengthens a sequence.
pub open spec fn parse_items(s: Seq<u8>, first: bool) -> Option<(Seq<JVal>, Seq<u8>)>
    decreases s.len(), 1int,
{
    let t = trim(s);
    if t.len() > s.len() || t.len() == 0 {
        None
    } else if t[0] == 93 {
        Some((Seq::empty(), t.drop_first()))
    } else if first {
        match parse_val(t) {
            Some((v, r)) => if r.len() < t.len() {
                match parse_items(r, false) {
                    Some((vs, rr)) => Some((seq![v] + vs, rr)),
                    None => None,
                }
            } else {
                None
            },
            None => None,
        }
    } else if t[0] == 44 {
        let u = trim(t.drop_first());
        if u.len() >= t.len() {
            None
        } else {
            match parse_val(u) {
                Some((v, r)) => if r.len() < u.len() {
                    match parse_items(r, false) {
                        Some((vs, rr)) => Some((seq![v] + vs, rr)),
                        None => None,
                    }
                } else {
                    None
                },
                None => None,
            }
        }
    } else {
        None
    }
}

/// Decode one object property at the front of `w`: quoted key, colon, value.
pub open spec fn parse_prop_at(w: Seq<u8>) -> Option<((Seq<u8>, JVal), Seq<u8>)>
    decreases w.len(), 0int,
{
    if w.len() == 0 || w[0] != 34 {
        None
    } else {
        match parse_str_rest(w.drop_first()) {
            Some((k, r)) => {
                let r2 = trim(r);
                if r2.len() > r.len() || r2.len() == 0 || r2[0] != 58 {
                    None
                } else {
                    let r3 = trim(r2.drop_first());
                    if r3.len() >= w.len() {
                        None
                    } else {
                        match parse_val(r3) {
                            Some((v, rest)) => Some(((k, v), rest)),
                            None => None,
                        }
                    }
                }
            },
            None => None,
        }
    }
}

/// Decode the inside of an object after `{`, like `parse_items`.
pub open spec fn parse_props(s: Seq<u8>, first: bool) -> Option<
    (Seq<(Seq<u8>, JVal)>, Seq<u8>),
>
    decreases s.len(), 1int,
{
    let t = trim(s);
    if t.len() > s.len() || t.len() == 0 {
        None
    } else if t[0] == 125 {
        Some((Seq::empty(), t.drop_first()))
    } else if first {
        match parse_prop_at(t) {
            Some((p, r)) => if r.len() < t.len() {
                match parse_props(r, false) {
                    Some((ps, rr)) => Some((seq![p] + ps, rr)),
                    None => None,
                }
            } else {
                None
            },
            None => None,
        }
    } else if t[0] == 44 {
        let u = trim(t.drop_first());
        if u.len() >= t.len() {
            None
        } else {
            match parse_prop_at(u) {
                Some((p, r)) => if r.len() < u.len() {
                    match parse_props(r, false) {
                        Some((ps, rr)) => Some((seq![p] + ps, rr)),
                        None => None,
                    }
                } else {
                    None
                },
                None => None,
            }
        }
    } else {
        None
    }
}

} // verus!
