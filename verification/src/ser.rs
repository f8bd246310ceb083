//! The executable JSON writer: appends exactly the bytes `ser_jv` describes.

use vstd::prelude::*;
use crate::json::{JVal, JsonValue, jv_seq, jv_props, esc, esc_byte, dec_digits, ser_int, ser_jv, ser_items, ser_items_tail, ser_prop, ser_props, ser_props_tail};

verus! {

/// Escaping distributes over concatenation.
pub proof fn lemma_esc_append(a: Seq<u8>, b: Seq<u8>)
    ensures
        esc(a + b) == esc(a) + esc(b),
    decreases a.len(),
{
    if a.len() == 0 {
        assert(a + b =~= b);
        assert(esc(a) + esc(b) =~= esc(b));
    } else {
        assert((a + b).drop_first() =~= a.drop_first() + b);
        lemma_esc_append(a.drop_first(), b);
        assert(esc_byte(a[0]) + (esc(a.drop_first()) + esc(b)) =~= (esc_byte(a[0]) + esc(
            a.drop_first(),
        )) + esc(b));
        assert((a + b)[0] == a[0]);
    }
}

/// Escaping one more byte appends that byte's escape.
pub proof fn lemma_esc_snoc(s: Seq<u8>, i: int)
    requires
        0 <= i < s.len(),
    ensures
        esc(s.take(i + 1)) == esc(s.take(i)) + esc_byte(s[i]),
{
    let single = seq![s[i]];
    assert(s.take(i + 1) =~= s.take(i) + single);
    lemma_esc_append(s.take(i), single);
    assert(single.drop_first() =~= Seq::<u8>::empty());
    assert(esc(single) == esc_byte(s[i]) + esc(Seq::<u8>::empty()));
    assert(esc_byte(s[i]) + Seq::<u8>::empty() =~= esc_byte(s[i]));
}

/// One more array element appends a comma and that element.
pub proof fn lemma_ser_items_tail_snoc(es: Seq<JVal>, x: JVal)
    ensures
        ser_items_tail(es.push(x)) == ser_items_tail(es) + seq![44u8] + ser_jv(x),
    decreases es.len(),
{
    if es.len() == 0 {
        assert(es.push(x).drop_first() =~= Seq::<JVal>::empty());
        assert(es.push(x)[0] == x);
        assert(seq![44u8] + ser_jv(x) + ser_items_tail(Seq::<JVal>::empty()) =~= ser_items_tail(
            es,
        ) + seq![44u8] + ser_jv(x));
    } else {
        assert(es.push(x).drop_first() =~= es.drop_first().push(x));
        lemma_ser_items_tail_snoc(es.drop_first(), x);
        assert(es.push(x)[0] == es[0]);
        assert(seq![44u8] + ser_jv(es[0]) + (ser_items_tail(es.drop_first()) + seq![44u8]
            + ser_jv(x)) =~= (seq![44u8] + ser_jv(es[0]) + ser_items_tail(es.drop_first()))
            + seq![44u8] + ser_jv(x));
    }
}

pub proof fn lemma_ser_items_snoc(es: Seq<JVal>, x: JVal)
    ensures
        ser_items(es.push(x)) == if es.len() == 0 {
            ser_jv(x)
        } else {
            ser_items(es) + seq![44u8] + ser_jv(x)
        },
{
    if es.len() == 0 {
        assert(es.push(x)[0] == x);
        assert(es.push(x).drop_first() =~= Seq::<JVal>::empty());
        assert(ser_jv(x) + ser_items_tail(Seq::<JVal>::empty()) =~= ser_jv(x));
    } else {
        assert(es.push(x)[0] == es[0]);
        assert(es.push(x).drop_first() =~= es.drop_first().push(x));
        lemma_ser_items_tail_snoc(es.drop_first(), x);
        assert(ser_jv(es[0]) + (ser_items_tail(es.drop_first()) + seq![44u8] + ser_jv(x))
            =~= (ser_jv(es[0]) + ser_items_tail(es.drop_first())) + seq![44u8] + ser_jv(x));
    }
}

/// One more object property appends a comma and that property.
pub proof fn lemma_ser_props_tail_snoc(ps: Seq<(Seq<u8>, JVal)>, x: (Seq<u8>, JVal))
    ensures
        ser_props_tail(ps.push(x)) == ser_props_tail(ps) + seq![44u8] + ser_prop(x),
    decreases ps.len(),
{
    if ps.len() == 0 {
        assert(ps.push(x).drop_first() =~= Seq::<(Seq<u8>, JVal)>::empty());
        assert(ps.push(x)[0] == x);
        assert(seq![44u8] + ser_prop(x) + ser_props_tail(Seq::<(Seq<u8>, JVal)>::empty())
            =~= ser_props_tail(ps) + seq![44u8] + ser_prop(x));
    } else {
        assert(ps.push(x).drop_first() =~= ps.drop_first().push(x));
        lemma_ser_props_tail_snoc(ps.drop_first(), x);
        assert(ps.push(x)[0] == ps[0]);
        assert(seq![44u8] + ser_prop(ps[0]) + (ser_props_tail(ps.drop_first()) + seq![44u8]
            + ser_prop(x)) =~= (seq![44u8] + ser_prop(ps[0]) + ser_props_tail(ps.drop_first()))
            + seq![44u8] + ser_prop(x));
    }
}

pub proof fn lemma_ser_props_snoc(ps: Seq<(Seq<u8>, JVal)>, x: (Seq<u8>, JVal))
    ensures
        ser_props(ps.push(x)) == if ps.len() == 0 {
            ser_prop(x)
        } else {
            ser_props(ps) + seq![44u8] + ser_prop(x)
        },
{
    if ps.len() == 0 {
        assert(ps.push(x)[0] == x);
        assert(ps.push(x).drop_first() =~= Seq::<(Seq<u8>, JVal)>::empty());
        assert(ser_prop(x) + ser_props_tail(Seq::<(Seq<u8>, JVal)>::empty()) =~= ser_prop(x));
    } else {
        assert(ps.push(x)[0] == ps[0]);
        assert(ps.push(x).drop_first() =~= ps.drop_first().push(x));
        lemma_ser_props_tail_snoc(ps.drop_first(), x);
        assert(ser_prop(ps[0]) + (ser_props_tail(ps.drop_first()) + seq![44u8] + ser_prop(x))
            =~= (ser_prop(ps[0]) + ser_props_tail(ps.drop_first())) + seq![44u8] + ser_prop(x));
    }
}

/// Append the decimal digits of `n`.
fn write_dec(n: u64, out: &mut Vec<u8>)
    ensures
        final(out)@ == old(out)@ + dec_digits(n as nat),
    decreases n,
{
    if n < 10 {
        out.push((48 + n) as u8);
        assert(out@ =~= old(out)@ + dec_digits(n as nat));
    } else {
        write_dec(n / 10, out);
        out.push((48 + (n % 10)) as u8);
        assert(out@ =~= old(out)@ + (dec_digits((n / 10) as nat) + seq![(48 + ((n as nat)
            % 10)) as u8]));
    }
}

/// Append the decimal form of `i`, with a minus sign when negative.
fn write_int(i: i64, out: &mut Vec<u8>)
    ensures
        final(out)@ == old(out)@ + ser_int(i as int),
{
    if i < 0 {
        out.push(45);
        let m: u64 = if i == i64::MIN {
            9223372036854775808u64
        } else {
            (-i) as u64
        };
        assert(m as nat == (-(i as int)) as nat);
        write_dec(m, out);
        assert(out@ =~= old(out)@ + (seq![45u8] + dec_digits((-(i as int)) as nat)));
    } else {
        write_dec(i as u64, out);
    }
}

/// Append the escaped form of the string body `s`.
fn write_escaped(s: &Vec<u8>, out: &mut Vec<u8>)
    ensures
        final(out)@ == old(out)@ + esc(s@),
{
    let mut i: usize = 0;
    while i < s.len()
        invariant
            i <= s.len(),
            out@ == old(out)@ + esc(s@.take(i as int)),
        decreases s.len() - i,
    {
        let b = s[i];
        proof {
            lemma_esc_snoc(s@, i as int);
        }
        if b == 34 {
            out.push(92);
            out.push(34);
        } else if b == 92 {
            out.push(92);
            out.push(92);
        } else if b < 32 {
            out.push(92);
            out.push(117);
            out.push(48);
            out.push(48);
            let hi = b / 16;
            let lo = b % 16;
            out.push(if hi < 10 { 48 + hi } else { 87 + hi });
            out.push(if lo < 10 { 48 + lo } else { 87 + lo });
        } else {
            out.push(b);
        }
        assert(out@ =~= old(out)@ + esc(s@.take(i as int)) + esc_byte(s@[i as int]));
        assert(out@ =~= old(out)@ + esc(s@.take(i as int + 1)));
        i = i + 1;
    }
    assert(s@.take(s@.len() as int) =~= s@);
}

/// Append the compact JSON text of `v`: exactly `ser_jv(v.jv())`.
pub fn write_json(v: &JsonValue, out: &mut Vec<u8>)
    ensures
        final(out)@ == old(out)@ + ser_jv(v.jv()),
    decreases v,
{
    match v {
        JsonValue::Null => {
            out.push(110);
            out.push(117);
            out.push(108);
            out.push(108);
            assert(out@ =~= old(out)@ + ser_jv(v.jv()));
        },
        JsonValue::Bool(b) => {
            if *b {
                out.push(116);
                out.push(114);
                out.push(117);
                out.push(101);
            } else {
                out.push(102);
                out.push(97);
                out.push(108);
                out.push(115);
                out.push(101);
            }
            assert(out@ =~= old(out)@ + ser_jv(v.jv()));
        },
        JsonValue::Int(i) => {
            write_int(*i, out);
        },
        JsonValue::Str(s) => {
            out.push(34);
            write_escaped(s, out);
            out.push(34);
            assert(out@ =~= old(out)@ + (seq![34u8] + esc(s@) + seq![34u8]));
        },
        JsonValue::Arr(xs) => {
            out.push(91);
            let ghost es = jv_seq(xs@);
            let mut i: usize = 0;
            while i < xs.len()
                invariant
                    i <= xs.len(),
                    *v == JsonValue::Arr(*xs),
                    es == jv_seq(xs@),
                    out@ == old(out)@ + seq![91u8] + ser_items(es.take(i as int)),
                decreases xs.len() - i,
            {
                if i > 0 {
                    out.push(44);
                }
                proof {
                    assert(decreases_to!(*v => v->Arr_0));
                    assert(v->Arr_0 == *xs);
                    assert(decreases_to!(*xs => xs@));
                    assert(decreases_to!(xs@ => xs@[i as int]));
                    assert(decreases_to!(*v => xs@[i as int]));
                }
                write_json(&xs[i], out);
                proof {
                    lemma_ser_items_snoc(es.take(i as int), es[i as int]);
                    assert(es.take(i as int).push(es[i as int]) =~= es.take(i as int + 1));
                    assert(xs@[i as int].jv() == es[i as int]);
                    if i > 0 {
                        assert(out@ =~= old(out)@ + seq![91u8] + (ser_items(es.take(i as int))
                            + seq![44u8] + ser_jv(es[i as int])));
                    } else {
                        assert(es.take(0) =~= Seq::<JVal>::empty());
                        assert(out@ =~= old(out)@ + seq![91u8] + ser_jv(es[0]));
                    }
                }
                i = i + 1;
            }
            out.push(93);
            proof {
                assert(es.take(xs@.len() as int) =~= es);
                assert(out@ =~= old(out)@ + (seq![91u8] + ser_items(es) + seq![93u8]));
            }
        },
        JsonValue::Obj(ps) => {
            out.push(123);
            let ghost qs = jv_props(ps@);
            let mut i: usize = 0;
            while i < ps.len()
                invariant
                    i <= ps.len(),
                    *v == JsonValue::Obj(*ps),
                    qs == jv_props(ps@),
                    out@ == old(out)@ + seq![123u8] + ser_props(qs.take(i as int)),
                decreases ps.len() - i,
            {
                if i > 0 {
                    out.push(44);
                }
                let ghost mid = out@;
                out.push(34);
                write_escaped(&ps[i].0, out);
                out.push(34);
                out.push(58);
                proof {
                    assert(decreases_to!(*v => v->Obj_0));
                    assert(v->Obj_0 == *ps);
                    assert(decreases_to!(*ps => ps@));
                    assert(decreases_to!(ps@ => ps@[i as int]));
                    assert(decreases_to!(ps@[i as int] => ps@[i as int].1));
                    assert(decreases_to!(*v => ps@[i as int].1));
                }
                write_json(&ps[i].1, out);
                proof {
                    assert(out@ =~= mid + (seq![34u8] + esc(ps@[i as int].0@) + seq![34u8, 58u8]
                        + ser_jv(ps@[i as int].1.jv())));
                    assert(out@ =~= mid + ser_prop(qs[i as int]));
                    lemma_ser_props_snoc(qs.take(i as int), qs[i as int]);
                    assert(qs.take(i as int).push(qs[i as int]) =~= qs.take(i as int + 1));
                    if i > 0 {
                        assert(out@ =~= old(out)@ + seq![123u8] + (ser_props(qs.take(i as int))
                            + seq![44u8] + ser_prop(qs[i as int])));
                    } else {
                        assert(qs.take(0) =~= Seq::<(Seq<u8>, JVal)>::empty());
                        assert(out@ =~= old(out)@ + seq![123u8] + ser_prop(qs[0]));
                    }
                }
                i = i + 1;
            }
            out.push(125);
            proof {
                assert(qs.take(ps@.len() as int) =~= qs);
                assert(out@ =~= old(out)@ + (seq![123u8] + ser_props(qs) + seq![125u8]));
            }
        },
    }
}

} // verus!
