//! The codec laws: serializing any encodable value and decoding the very
//! same bytes yields the value back, and a frame missing either delimiter
//! is rejected as truncated.

use vstd::prelude::*;
use crate::json::{JVal, JsonValue, jv_seq, jv_props, wf_seq, wf_props, no_delim, hex_digit, esc,
    esc_byte, dec_digits, ser_int, ser_jv, ser_items, ser_items_tail, ser_prop, ser_props,
    ser_props_tail, is_ws, trim, is_digit, digits_val, is_hex, hex_val, parse_str_rest,
    parse_num_body, parse_val, parse_items, parse_prop_at, parse_props};
use crate::parse::lemma_digits_len_char;
use crate::frame::{frame_bytes, spec_decode_frame};
use crate::types::HLAPIError;

verus! {

/// Bytes allowed to follow a serialized value: nothing that could extend a
/// number (a digit, `.`, `e` or `E`).
pub open spec fn sep_ok(rest: Seq<u8>) -> bool {
    rest.len() == 0 || (!is_digit(rest[0]) && rest[0] != 46 && rest[0] != 101 && rest[0] != 69)
}

/// Decimal digits are digits, at least one of them, with no leading zero
/// unless the number is zero itself.
pub proof fn lemma_dec_digits_props(n: nat)
    ensures
        dec_digits(n).len() >= 1,
        forall|i: int| 0 <= i < dec_digits(n).len() ==> is_digit(#[trigger] dec_digits(n)[i]),
        n >= 1 ==> dec_digits(n)[0] != 48,
        n == 0 ==> dec_digits(n) == seq![48u8],
    decreases n,
{
    if n < 10 {
        assert(dec_digits(n) == seq![(48 + n) as u8]);
    } else {
        lemma_dec_digits_props(n / 10);
        let a = dec_digits(n / 10);
        let d = seq![(48 + (n % 10)) as u8];
        assert(dec_digits(n) == a + d);
        assert forall|i: int| 0 <= i < dec_digits(n).len() implies is_digit(
            #[trigger] dec_digits(n)[i],
        ) by {
            if i < a.len() {
                assert(dec_digits(n)[i] == a[i]);
            } else {
                assert(dec_digits(n)[i] == d[i - a.len()]);
            }
        }
        assert(dec_digits(n)[0] == a[0]);
    }
}

/// Reading back the decimal digits of `n` gives `n`.
pub proof fn lemma_digits_val_dec(n: nat)
    ensures
        digits_val(dec_digits(n)) == n,
    decreases n,
{
    if n < 10 {
        assert(dec_digits(n) == seq![(48 + n) as u8]);
        assert(dec_digits(n).drop_last() =~= Seq::<u8>::empty());
        assert(digits_val(Seq::<u8>::empty()) == 0);
        assert(dec_digits(n).last() == (48 + n) as u8);
        assert(digits_val(dec_digits(n)) == 0 * 10 + ((48 + n) as u8 - 48));
    } else {
        lemma_digits_val_dec(n / 10);
        let a = dec_digits(n / 10);
        let d = seq![(48 + (n % 10)) as u8];
        assert(dec_digits(n) == a + d);
        assert((a + d).drop_last() =~= a);
        assert((a + d).last() == (48 + (n % 10)) as u8);
        vstd::arithmetic::div_mod::lemma_fundamental_div_mod(n as int, 10);
    }
}

/// A serialized number followed by a separator parses back exactly.
pub proof fn lemma_parse_num(n: nat, rest: Seq<u8>)
    requires
        sep_ok(rest),
    ensures
        parse_num_body(dec_digits(n) + rest) == Some((n as int, rest)),
{
    let a = dec_digits(n);
    let s = a + rest;
    lemma_dec_digits_props(n);
    assert forall|m: int| 0 <= m < a.len() implies is_digit(s[m]) by {
        assert(s[m] == a[m]);
    }
    if a.len() < s.len() {
        assert(s[a.len() as int] == rest[0]);
    }
    lemma_digits_len_char(s, a.len() as int);
    assert(s.take(a.len() as int) =~= a);
    lemma_digits_val_dec(n);
    assert(s.skip(a.len() as int) =~= rest);
    assert(s[0] == a[0]);
}

/// A serialized integer followed by a separator parses back exactly.
pub proof fn lemma_parse_int(i: int, rest: Seq<u8>)
    requires
        i64::MIN <= i <= i64::MAX,
        sep_ok(rest),
    ensures
        parse_val(ser_int(i) + rest) == Some((JVal::Int(i), rest)),
{
    if i < 0 {
        let a = dec_digits((-i) as nat);
        let s = (seq![45u8] + a) + rest;
        assert(s[0] == 45);
        lemma_dec_digits_props((-i) as nat);
        assert(!is_digit(45u8) && 45u8 != 110 && 45u8 != 116 && 45u8 != 102 && 45u8 != 34 && 45u8
            != 91 && 45u8 != 123);
        assert(s.drop_first() =~= a + rest);
        lemma_parse_num((-i) as nat, rest);
        assert((-i) as int <= 9223372036854775808int);
    } else {
        let a = dec_digits(i as nat);
        let s = a + rest;
        lemma_dec_digits_props(i as nat);
        assert(s[0] == a[0]);
        assert(is_digit(s[0]));
        lemma_parse_num(i as nat, rest);
        assert(i <= 9223372036854775807int);
    }
}

/// An escaped string body, the closing quote, then anything, parses back to
/// exactly the body.
pub proof fn lemma_parse_esc(c: Seq<u8>, rest: Seq<u8>)
    ensures
        parse_str_rest(esc(c) + (seq![34u8] + rest)) == Some((c, rest)),
    decreases c.len(),
{
    let s = esc(c) + (seq![34u8] + rest);
    if c.len() == 0 {
        assert(esc(c) == Seq::<u8>::empty());
        assert(s =~= seq![34u8] + rest);
        assert(s[0] == 34);
        assert(s.drop_first() =~= rest);
    } else {
        let b = c[0];
        let tail = c.drop_first();
        assert(esc(c) == esc_byte(b) + esc(tail));
        let inner = esc(tail) + (seq![34u8] + rest);
        assert(s =~= esc_byte(b) + inner);
        lemma_parse_esc(tail, rest);
        if b == 34 {
            assert(s[0] == 92 && s[1] == 34);
            assert(s.skip(2) =~= inner);
            assert(seq![b] + tail =~= c);
        } else if b == 92 {
            assert(s[0] == 92 && s[1] == 92);
            assert(s.skip(2) =~= inner);
            assert(seq![b] + tail =~= c);
        } else if b < 32 {
            let hi = b as int / 16;
            let lo = b as int % 16;
            vstd::arithmetic::div_mod::lemma_fundamental_div_mod(b as int, 16);
            assert(s[0] == 92 && s[1] == 117 && s[2] == 48 && s[3] == 48);
            assert(s[4] == hex_digit(hi) && s[5] == hex_digit(lo));
            assert(is_hex(48u8) && hex_val(48u8) == 0);
            assert(is_hex(hex_digit(hi)) && hex_val(hex_digit(hi)) == hi);
            assert(is_hex(hex_digit(lo)) && hex_val(hex_digit(lo)) == lo);
            let v = hex_val(s[2]) * 4096 + hex_val(s[3]) * 256 + hex_val(s[4]) * 16 + hex_val(
                s[5],
            );
            assert(v == b as int);
            assert(s.skip(6) =~= inner);
            assert(seq![v as u8] + tail =~= c);
        } else {
            assert(s[0] == b);
            assert(s.drop_first() =~= inner);
            assert(seq![b] + tail =~= c);
        }
    }
}

/// A serialized value starts with a byte that is not whitespace, not a
/// closing bracket or brace, not a comma or colon, and not a delimiter.
pub proof fn lemma_ser_first(v: JVal)
    ensures
        ser_jv(v).len() >= 1,
        !is_ws(ser_jv(v)[0]),
        ser_jv(v)[0] != 93 && ser_jv(v)[0] != 125 && ser_jv(v)[0] != 44 && ser_jv(v)[0] != 58
            && ser_jv(v)[0] != 0,
{
    match v {
        JVal::Int(i) => {
            if i < 0 {
                assert(ser_jv(v)[0] == 45);
            } else {
                lemma_dec_digits_props(i as nat);
                assert(ser_jv(v)[0] == dec_digits(i as nat)[0]);
                assert(is_digit(ser_jv(v)[0]));
            }
        },
        JVal::Str(c) => {
            assert(ser_jv(v)[0] == 34);
        },
        JVal::Arr(es) => {
            assert(ser_jv(v)[0] == 91);
        },
        JVal::Obj(ps) => {
            assert(ser_jv(v)[0] == 123);
        },
        _ => {},
    }
}

/// Serializing any encodable value and parsing the same bytes (followed by
/// any separator-safe rest) yields the value and the rest, exactly.
pub proof fn lemma_parse_ser(v: JVal, rest: Seq<u8>)
    requires
        v.wf(),
        sep_ok(rest),
    ensures
        parse_val(ser_jv(v) + rest) == Some((v, rest)),
    decreases v, 0int,
{
    let s = ser_jv(v) + rest;
    match v {
        JVal::Null => {
            assert(s[0] == 110 && s[1] == 117 && s[2] == 108 && s[3] == 108);
            assert(s.skip(4) =~= rest);
        },
        JVal::Bool(b) => {
            if b {
                assert(s[0] == 116 && s[1] == 114 && s[2] == 117 && s[3] == 101);
                assert(s.skip(4) =~= rest);
            } else {
                assert(s[0] == 102 && s[1] == 97 && s[2] == 108 && s[3] == 115 && s[4] == 101);
                assert(s.skip(5) =~= rest);
            }
        },
        JVal::Int(i) => {
            lemma_parse_int(i, rest);
        },
        JVal::Str(c) => {
            assert(s[0] == 34);
            assert(s.drop_first() =~= esc(c) + (seq![34u8] + rest));
            lemma_parse_esc(c, rest);
        },
        JVal::Arr(es) => {
            assert(s[0] == 91);
            assert(s.drop_first() =~= ser_items(es) + seq![93u8] + rest);
            lemma_items_ser(es, rest);
        },
        JVal::Obj(ps) => {
            assert(s[0] == 123);
            assert(s.drop_first() =~= ser_props(ps) + seq![125u8] + rest);
            lemma_props_ser(ps, rest);
        },
    }
}

/// Array elements serialized from the first element parse back exactly.
pub proof fn lemma_items_ser(es: Seq<JVal>, rest: Seq<u8>)
    requires
        wf_seq(es),
    ensures
        parse_items(ser_items(es) + seq![93u8] + rest, true) == Some((es, rest)),
    decreases es, 1int,
{
    let s = ser_items(es) + seq![93u8] + rest;
    if es.len() == 0 {
        assert(s =~= seq![93u8] + rest);
        assert(s[0] == 93);
        assert(trim(s) == s);
        assert(s.drop_first() =~= rest);
        assert(es =~= Seq::<JVal>::empty());
    } else {
        let tail = es.drop_first();
        let after = ser_items_tail(tail) + seq![93u8] + rest;
        assert(ser_items(es) == ser_jv(es[0]) + ser_items_tail(tail));
        assert(s =~= ser_jv(es[0]) + after);
        lemma_ser_first(es[0]);
        assert(s[0] == ser_jv(es[0])[0]);
        assert(trim(s) == s);
        assert(sep_ok(after)) by {
            if tail.len() == 0 {
                assert(after[0] == 93);
            } else {
                assert(after[0] == 44);
            }
        }
        lemma_parse_ser(es[0], after);
        lemma_items_tail_ser(tail, rest);
        assert(seq![es[0]] + tail =~= es);
    }
}

/// Array elements serialized after the first element parse back exactly.
pub proof fn lemma_items_tail_ser(es: Seq<JVal>, rest: Seq<u8>)
    requires
        wf_seq(es),
    ensures
        parse_items(ser_items_tail(es) + seq![93u8] + rest, false) == Some((es, rest)),
    decreases es, 1int,
{
    let s = ser_items_tail(es) + seq![93u8] + rest;
    if es.len() == 0 {
        assert(s =~= seq![93u8] + rest);
        assert(s[0] == 93);
        assert(trim(s) == s);
        assert(s.drop_first() =~= rest);
        assert(es =~= Seq::<JVal>::empty());
    } else {
        let tail = es.drop_first();
        let after = ser_items_tail(tail) + seq![93u8] + rest;
        assert(ser_items_tail(es) == seq![44u8] + ser_jv(es[0]) + ser_items_tail(tail));
        assert(s[0] == 44);
        assert(trim(s) == s);
        assert(s.drop_first() =~= ser_jv(es[0]) + after);
        lemma_ser_first(es[0]);
        assert(trim(s.drop_first()) == s.drop_first()) by {
            assert(s.drop_first()[0] == ser_jv(es[0])[0]);
        }
        assert(sep_ok(after)) by {
            if tail.len() == 0 {
                assert(after[0] == 93);
            } else {
                assert(after[0] == 44);
            }
        }
        lemma_parse_ser(es[0], after);
        lemma_items_tail_ser(tail, rest);
        assert(seq![es[0]] + tail =~= es);
    }
}

/// One serialized object property parses back exactly.
pub proof fn lemma_prop_ser(p: (Seq<u8>, JVal), rest: Seq<u8>)
    requires
        p.1.wf(),
        sep_ok(rest),
    ensures
        parse_prop_at(ser_prop(p) + rest) == Some((p, rest)),
    decreases p, 0int,
{
    let w = ser_prop(p) + rest;
    assert(w =~= seq![34u8] + esc(p.0) + seq![34u8, 58u8] + ser_jv(p.1) + rest);
    assert(w[0] == 34);
    let r = seq![58u8] + (ser_jv(p.1) + rest);
    assert(w.drop_first() =~= esc(p.0) + (seq![34u8] + r));
    lemma_parse_esc(p.0, r);
    assert(r[0] == 58);
    assert(trim(r) == r);
    let r3 = ser_jv(p.1) + rest;
    assert(r.drop_first() =~= r3);
    lemma_ser_first(p.1);
    assert(trim(r3) == r3) by {
        assert(r3[0] == ser_jv(p.1)[0]);
    }
    lemma_parse_ser(p.1, rest);
    assert((p.0, p.1) == p);
}

/// Object properties serialized from the first property parse back exactly.
pub proof fn lemma_props_ser(ps: Seq<(Seq<u8>, JVal)>, rest: Seq<u8>)
    requires
        wf_props(ps),
    ensures
        parse_props(ser_props(ps) + seq![125u8] + rest, true) == Some((ps, rest)),
    decreases ps, 1int,
{
    let s = ser_props(ps) + seq![125u8] + rest;
    if ps.len() == 0 {
        assert(s =~= seq![125u8] + rest);
        assert(s[0] == 125);
        assert(trim(s) == s);
        assert(s.drop_first() =~= rest);
        assert(ps =~= Seq::<(Seq<u8>, JVal)>::empty());
    } else {
        let tail = ps.drop_first();
        let after = ser_props_tail(tail) + seq![125u8] + rest;
        assert(ser_props(ps) == ser_prop(ps[0]) + ser_props_tail(tail));
        assert(s =~= ser_prop(ps[0]) + after);
        assert(ser_prop(ps[0])[0] == 34);
        assert(s[0] == 34);
        assert(trim(s) == s);
        assert(sep_ok(after)) by {
            if tail.len() == 0 {
                assert(after[0] == 125);
            } else {
                assert(after[0] == 44);
            }
        }
        lemma_prop_ser(ps[0], after);
        lemma_props_tail_ser(tail, rest);
        assert(seq![ps[0]] + tail =~= ps);
    }
}

/// Object properties serialized after the first property parse back exactly.
pub proof fn lemma_props_tail_ser(ps: Seq<(Seq<u8>, JVal)>, rest: Seq<u8>)
    requires
        wf_props(ps),
    ensures
        parse_props(ser_props_tail(ps) + seq![125u8] + rest, false) == Some((ps, rest)),
    decreases ps, 1int,
{
    let s = ser_props_tail(ps) + seq![125u8] + rest;
    if ps.len() == 0 {
        assert(s =~= seq![125u8] + rest);
        assert(s[0] == 125);
        assert(trim(s) == s);
        assert(s.drop_first() =~= rest);
        assert(ps =~= Seq::<(Seq<u8>, JVal)>::empty());
    } else {
        let tail = ps.drop_first();
        let after = ser_props_tail(tail) + seq![125u8] + rest;
        assert(ser_props_tail(ps) == seq![44u8] + ser_prop(ps[0]) + ser_props_tail(tail));
        assert(s[0] == 44);
        assert(trim(s) == s);
        assert(s.drop_first() =~= ser_prop(ps[0]) + after);
        assert(trim(s.drop_first()) == s.drop_first()) by {
            assert(s.drop_first()[0] == ser_prop(ps[0])[0]);
            assert(ser_prop(ps[0])[0] == 34);
        }
        assert(sep_ok(after)) by {
            if tail.len() == 0 {
                assert(after[0] == 125);
            } else {
                assert(after[0] == 44);
            }
        }
        lemma_prop_ser(ps[0], after);
        lemma_props_tail_ser(tail, rest);
        assert(seq![ps[0]] + tail =~= ps);
    }
}

/// Every value built from the executable model is encodable.
pub proof fn lemma_jv_wf(v: JsonValue)
    ensures
        v.jv().wf(),
    decreases v, 0int,
{
    match v {
        JsonValue::Arr(xs) => {
            assert(decreases_to!(v => v->Arr_0));
            assert(v->Arr_0 == xs);
            assert(decreases_to!(xs => xs@));
            lemma_jv_wf_seq(xs@);
        },
        JsonValue::Obj(ps) => {
            assert(decreases_to!(v => v->Obj_0));
            assert(v->Obj_0 == ps);
            assert(decreases_to!(ps => ps@));
            lemma_jv_wf_props(ps@);
        },
        _ => {},
    }
}

/// Every element model of an executable sequence is encodable.
pub proof fn lemma_jv_wf_seq(xs: Seq<JsonValue>)
    ensures
        wf_seq(jv_seq(xs)),
    decreases xs, 1int,
{
    if xs.len() > 0 {
        assert(decreases_to!(xs => xs[0]));
        lemma_jv_wf(xs[0]);
        lemma_jv_wf_seq(xs.drop_first());
        assert(jv_seq(xs).drop_first() =~= jv_seq(xs.drop_first()));
        assert(jv_seq(xs)[0] == xs[0].jv());
    }
}

/// Every property model of an executable sequence is encodable.
pub proof fn lemma_jv_wf_props(ps: Seq<(Vec<u8>, JsonValue)>)
    ensures
        wf_props(jv_props(ps)),
    decreases ps, 1int,
{
    if ps.len() > 0 {
        assert(decreases_to!(ps => ps[0]));
        assert(decreases_to!(ps[0] => ps[0].1));
        lemma_jv_wf(ps[0].1);
        lemma_jv_wf_props(ps.drop_first());
        assert(jv_props(ps).drop_first() =~= jv_props(ps.drop_first()));
        assert(jv_props(ps)[0] == (ps[0].0@, ps[0].1.jv()));
    }
}

/// Round trip: framing the serialized form of any encodable value and
/// decoding those very bytes yields the value back.
pub proof fn lemma_frame_round_trip(v: JVal)
    requires
        v.wf(),
    ensures
        spec_decode_frame(frame_bytes(ser_jv(v))) == Ok::<JVal, HLAPIError>(v),
{
    let buf = frame_bytes(ser_jv(v));
    assert(buf[0] == 0);
    assert(buf.drop_first() =~= ser_jv(v) + seq![0u8]);
    lemma_ser_first(v);
    assert((ser_jv(v) + seq![0u8])[0] == ser_jv(v)[0]);
    assert(trim(buf.drop_first()) == buf.drop_first());
    lemma_parse_ser(v, seq![0u8]);
}

/// Framing integrity: without its leading delimiter a frame is refused as
/// truncated, never decoded.
pub proof fn lemma_missing_lead_delim(v: JVal)
    requires
        v.wf(),
    ensures
        spec_decode_frame(ser_jv(v) + seq![0u8]) == Err::<JVal, HLAPIError>(
            HLAPIError::UnexpectedEof,
        ),
{
    lemma_ser_first(v);
    assert((ser_jv(v) + seq![0u8])[0] == ser_jv(v)[0]);
}

/// Framing integrity: without its trailing delimiter a frame is refused as
/// truncated, even though the payload itself decodes.
pub proof fn lemma_missing_trail_delim(v: JVal)
    requires
        v.wf(),
    ensures
        spec_decode_frame(seq![0u8] + ser_jv(v)) == Err::<JVal, HLAPIError>(
            HLAPIError::UnexpectedEof,
        ),
{
    let buf = seq![0u8] + ser_jv(v);
    assert(buf[0] == 0);
    assert(buf.drop_first() =~= ser_jv(v));
    lemma_ser_first(v);
    assert(trim(buf.drop_first()) == buf.drop_first());
    lemma_parse_ser(v, Seq::<u8>::empty());
    assert(ser_jv(v) + Seq::<u8>::empty() =~= ser_jv(v));
}

/// Concatenation preserves delimiter-freedom.
proof fn lemma_no_delim_concat(a: Seq<u8>, b: Seq<u8>)
    requires
        no_delim(a),
        no_delim(b),
    ensures
        no_delim(a + b),
{
    assert forall|i: int| 0 <= i < (a + b).len() implies (a + b)[i] != 0 by {
        if i < a.len() {
            assert((a + b)[i] == a[i]);
        } else {
            assert((a + b)[i] == b[i - a.len()]);
        }
    }
}

/// An escaped string body never contains the delimiter byte.
proof fn lemma_esc_no_delim(c: Seq<u8>)
    ensures
        no_delim(esc(c)),
    decreases c.len(),
{
    if c.len() > 0 {
        lemma_esc_no_delim(c.drop_first());
        let b = c[0];
        if b < 32 && b != 34 && b != 92 {
            assert(hex_digit(b as int / 16) != 0 && hex_digit(b as int % 16) != 0);
        }
        assert(no_delim(esc_byte(b)));
        lemma_no_delim_concat(esc_byte(b), esc(c.drop_first()));
    }
}

/// The delimiter byte never occurs inside serialized JSON text, so the NUL
/// message boundary is unambiguous.
pub proof fn lemma_ser_no_delim(v: JVal)
    ensures
        no_delim(ser_jv(v)),
    decreases v, 0int,
{
    match v {
        JVal::Null => {},
        JVal::Bool(_) => {},
        JVal::Int(i) => {
            if i < 0 {
                lemma_dec_digits_props((-i) as nat);
                lemma_no_delim_concat(seq![45u8], dec_digits((-i) as nat));
            } else {
                lemma_dec_digits_props(i as nat);
            }
        },
        JVal::Str(c) => {
            lemma_esc_no_delim(c);
            lemma_no_delim_concat(seq![34u8], esc(c));
            lemma_no_delim_concat(seq![34u8] + esc(c), seq![34u8]);
        },
        JVal::Arr(es) => {
            lemma_ser_items_no_delim(es);
            lemma_no_delim_concat(seq![91u8], ser_items(es));
            lemma_no_delim_concat(seq![91u8] + ser_items(es), seq![93u8]);
        },
        JVal::Obj(ps) => {
            lemma_ser_props_no_delim(ps);
            lemma_no_delim_concat(seq![123u8], ser_props(ps));
            lemma_no_delim_concat(seq![123u8] + ser_props(ps), seq![125u8]);
        },
    }
}

proof fn lemma_ser_items_no_delim(es: Seq<JVal>)
    ensures
        no_delim(ser_items(es)),
        no_delim(ser_items_tail(es)),
    decreases es, 1int,
{
    if es.len() > 0 {
        lemma_ser_no_delim(es[0]);
        lemma_ser_items_no_delim(es.drop_first());
        lemma_no_delim_concat(ser_jv(es[0]), ser_items_tail(es.drop_first()));
        lemma_no_delim_concat(seq![44u8], ser_jv(es[0]));
        lemma_no_delim_concat(seq![44u8] + ser_jv(es[0]), ser_items_tail(es.drop_first()));
    }
}

proof fn lemma_ser_props_no_delim(ps: Seq<(Seq<u8>, JVal)>)
    ensures
        no_delim(ser_props(ps)),
        no_delim(ser_props_tail(ps)),
    decreases ps, 1int,
{
    if ps.len() > 0 {
        lemma_ser_no_delim(ps[0].1);
        lemma_esc_no_delim(ps[0].0);
        lemma_ser_props_no_delim(ps.drop_first());
        lemma_no_delim_concat(seq![34u8], esc(ps[0].0));
        lemma_no_delim_concat(seq![34u8] + esc(ps[0].0), seq![34u8, 58u8]);
        lemma_no_delim_concat(seq![34u8] + esc(ps[0].0) + seq![34u8, 58u8], ser_jv(ps[0].1));
        lemma_no_delim_concat(ser_prop(ps[0]), ser_props_tail(ps.drop_first()));
        lemma_no_delim_concat(seq![44u8], ser_prop(ps[0]));
        lemma_no_delim_concat(seq![44u8] + ser_prop(ps[0]), ser_props_tail(ps.drop_first()));
    }
}

} // verus!
