//! The executable JSON reader: returns exactly what `parse_val` describes.
//!
//! Every function takes the staging buffer and a position, consumes a prefix
//! of the suffix starting there, and reports the end position; the contracts
//! tie each result to the specification parser on the corresponding suffix.

use vstd::prelude::*;
use crate::json::{JVal, JsonValue, jv_seq, jv_props, trim, is_digit, digits_len, digits_val,
    is_hex, hex_val, unesc, parse_str_rest, parse_num_body, parse_val, parse_items, parse_prop_at,
    parse_props};

verus! {

/// Every byte inside the maximal digit run is a digit.
pub proof fn lemma_digits_len_all(s: Seq<u8>)
    ensures
        0 <= digits_len(s) <= s.len(),
        forall|m: int| 0 <= m < digits_len(s) ==> is_digit(s[m]),
    decreases s.len(),
{
    if s.len() > 0 && is_digit(s[0]) {
        lemma_digits_len_all(s.drop_first());
        assert forall|m: int| 0 <= m < digits_len(s) implies is_digit(s[m]) by {
            if m > 0 {
                assert(s.drop_first()[m - 1] == s[m]);
            }
        }
    }
}

/// The maximal digit run is characterized by its boundary.
pub proof fn lemma_digits_len_char(s: Seq<u8>, k: int)
    requires
        0 <= k <= s.len(),
        forall|m: int| 0 <= m < k ==> is_digit(s[m]),
        k == s.len() || !is_digit(s[k]),
    ensures
        digits_len(s) == k,
    decreases s.len(),
{
    if k == 0 {
    } else {
        assert(is_digit(s[0]));
        let d = s.drop_first();
        assert forall|m: int| 0 <= m < k - 1 implies is_digit(d[m]) by {
            assert(d[m] == s[m + 1]);
        }
        if k - 1 < d.len() {
            assert(d[k - 1] == s[k]);
        }
        lemma_digits_len_char(d, k - 1);
    }
}

/// A run of digits has a nonnegative value.
pub proof fn lemma_digits_val_nonneg(s: Seq<u8>)
    requires
        forall|m: int| 0 <= m < s.len() ==> is_digit(s[m]),
    ensures
        digits_val(s) >= 0,
    decreases s.len(),
{
    if s.len() > 0 {
        lemma_digits_val_nonneg(s.drop_last());
    }
}

/// Reading more digits never shrinks the value.
pub proof fn lemma_digits_val_mono(s: Seq<u8>, j: int, k: int)
    requires
        0 <= j <= k <= s.len(),
        forall|m: int| 0 <= m < k ==> is_digit(s[m]),
    ensures
        digits_val(s.take(j)) <= digits_val(s.take(k)),
    decreases k - j,
{
    if j < k {
        lemma_digits_val_mono(s, j, k - 1);
        assert(s.take(k).drop_last() =~= s.take(k - 1));
        assert(forall|m: int| 0 <= m < s.take(k - 1).len() ==> is_digit(#[trigger] s.take(k - 1)[m]));
        lemma_digits_val_nonneg(s.take(k - 1));
        assert(digits_val(s.take(k)) == digits_val(s.take(k - 1)) * 10 + (s[k - 1] - 48));
    }
}

/// A prefix of digits bounds the maximal run from below.
pub proof fn lemma_digits_len_ge(s: Seq<u8>, k: int)
    requires
        0 <= k <= s.len(),
        forall|m: int| 0 <= m < k ==> is_digit(s[m]),
    ensures
        digits_len(s) >= k,
    decreases k,
{
    lemma_digits_len_all(s);
    if k > 0 {
        assert(is_digit(s[0]));
        let d = s.drop_first();
        assert forall|m: int| 0 <= m < k - 1 implies is_digit(d[m]) by {
            assert(d[m] == s[m + 1]);
        }
        lemma_digits_len_ge(d, k - 1);
        assert(digits_len(s) == 1 + digits_len(d));
    }
}

/// Skipping both indices at once is the same as skipping their sum.
pub proof fn lemma_skip_skip(b: Seq<u8>, i: int, j: int)
    requires
        0 <= i,
        0 <= j,
        i + j <= b.len(),
    ensures
        b.skip(i).skip(j) == b.skip(i + j),
{
    assert(b.skip(i).skip(j) =~= b.skip(i + j));
}

/// Prepending an element prepends its model.
pub proof fn lemma_jv_seq_prepend(x: JsonValue, s: Seq<JsonValue>)
    ensures
        jv_seq(s.insert(0, x)) == seq![x.jv()] + jv_seq(s),
{
    assert(jv_seq(s.insert(0, x)) =~= seq![x.jv()] + jv_seq(s));
}

/// Prepending a property prepends its model.
pub proof fn lemma_jv_props_prepend(x: (Vec<u8>, JsonValue), s: Seq<(Vec<u8>, JsonValue)>)
    ensures
        jv_props(s.insert(0, x)) == seq![(x.0@, x.1.jv())] + jv_props(s),
{
    assert(jv_props(s.insert(0, x)) =~= seq![(x.0@, x.1.jv())] + jv_props(s));
}

/// Advance past insignificant whitespace.
pub(crate) fn skip_ws(buf: &Vec<u8>, pos: usize) -> (r: usize)
    requires
        pos <= buf.len(),
    ensures
        pos <= r <= buf@.len(),
        buf@.skip(r as int) == trim(buf@.skip(pos as int)),
{
    let mut i: usize = pos;
    while i < buf.len() && (buf[i] == 32 || buf[i] == 9 || buf[i] == 10 || buf[i] == 13)
        invariant
            pos <= i <= buf.len(),
            trim(buf@.skip(pos as int)) == trim(buf@.skip(i as int)),
        decreases buf.len() - i,
    {
        proof {
            assert(buf@.skip(i as int).drop_first() =~= buf@.skip(i as int + 1));
        }
        i = i + 1;
    }
    i
}

/// Value of one hexadecimal digit.
fn hexv(b: u8) -> (r: u8)
    requires
        is_hex(b),
    ensures
        r as int == hex_val(b),
        r < 16,
{
    if 48 <= b && b <= 57 {
        b - 48
    } else if 97 <= b {
        b - 87
    } else {
        b - 55
    }
}

/// Decode a string body after the opening quote.
#[verifier::rlimit(50)]
pub(crate) fn p_str_rest(buf: &Vec<u8>, pos: usize) -> (r: Option<(Vec<u8>, usize)>)
    requires
        pos <= buf.len(),
    ensures
        match r {
            Some(p) => pos < p.1 <= buf@.len() && parse_str_rest(buf@.skip(pos as int)) == Some(
                (p.0@, buf@.skip(p.1 as int)),
            ),
            None => parse_str_rest(buf@.skip(pos as int)) is None,
        },
    decreases buf.len() - pos,
{
    let ghost s = buf@.skip(pos as int);
    if pos == buf.len() {
        return None;
    }
    let b = buf[pos];
    assert(b == s[0]);
    if b == 34 {
        proof {
            assert(s.drop_first() =~= buf@.skip(pos as int + 1));
        }
        let c: Vec<u8> = Vec::new();
        assert(c@ =~= Seq::<u8>::empty());
        Some((c, pos + 1))
    } else if b == 92 {
        if buf.len() - pos < 2 {
            return None;
        }
        let e = buf[pos + 1];
        assert(e == s[1]);
        if e == 117 {
            if buf.len() - pos < 6 {
                return None;
            }
            let h2 = buf[pos + 2];
            let h3 = buf[pos + 3];
            let h4 = buf[pos + 4];
            let h5 = buf[pos + 5];
            assert(h2 == s[2] && h3 == s[3] && h4 == s[4] && h5 == s[5]);
            let hex_ok = (48 <= h2 && h2 <= 57 || 97 <= h2 && h2 <= 102 || 65 <= h2 && h2 <= 70)
                && (48 <= h3 && h3 <= 57 || 97 <= h3 && h3 <= 102 || 65 <= h3 && h3 <= 70) && (48
                <= h4 && h4 <= 57 || 97 <= h4 && h4 <= 102 || 65 <= h4 && h4 <= 70) && (48 <= h5
                && h5 <= 57 || 97 <= h5 && h5 <= 102 || 65 <= h5 && h5 <= 70);
            if !hex_ok {
                return None;
            }
            let v: u32 = (hexv(h2) as u32) * 4096 + (hexv(h3) as u32) * 256 + (hexv(h4) as u32)
                * 16 + (hexv(h5) as u32);
            if v > 255 {
                return None;
            }
            proof {
                lemma_skip_skip(buf@, pos as int, 6);
            }
            match p_str_rest(buf, pos + 6) {
                Some((c, end)) => {
                    let mut c = c;
                    let ghost cv = c@;
                    c.insert(0, v as u8);
                    proof {
                        lemma_skip_skip(buf@, pos as int, 6);
                        assert(c@ =~= seq![(v as u8)] + cv);
                    }
                    Some((c, end))
                },
                None => None,
            }
        } else {
            let ue: Option<u8> = if e == 34 {
                Some(34)
            } else if e == 92 {
                Some(92)
            } else if e == 47 {
                Some(47)
            } else if e == 98 {
                Some(8)
            } else if e == 102 {
                Some(12)
            } else if e == 110 {
                Some(10)
            } else if e == 114 {
                Some(13)
            } else if e == 116 {
                Some(9)
            } else {
                None
            };
            assert(ue == unesc(s[1]));
            match ue {
                Some(bb) => {
                    proof {
                        lemma_skip_skip(buf@, pos as int, 2);
                    }
                    match p_str_rest(buf, pos + 2) {
                    Some((c, end)) => {
                        let mut c = c;
                        let ghost cv = c@;
                        c.insert(0, bb);
                        proof {
                            lemma_skip_skip(buf@, pos as int, 2);
                            assert(c@ =~= seq![bb] + cv);
                        }
                        Some((c, end))
                    },
                    None => None,
                    }
                },
                None => None,
            }
        }
    } else if b < 32 {
        None
    } else {
        proof {
            assert(s.drop_first() =~= buf@.skip(pos as int + 1));
        }
        match p_str_rest(buf, pos + 1) {
            Some((c, end)) => {
                let mut c = c;
                let ghost cv = c@;
                c.insert(0, b);
                proof {
                    assert(s.drop_first() =~= buf@.skip(pos as int + 1));
                    assert(c@ =~= seq![b] + cv);
                }
                Some((c, end))
            },
            None => None,
        }
    }
}

/// Decode an unsigned number body starting at `pos`.
pub(crate) fn p_num(buf: &Vec<u8>, pos: usize) -> (r: Option<(u64, usize)>)
    requires
        pos <= buf.len(),
    ensures
        match r {
            Some(p) => pos < p.1 <= buf@.len() && parse_num_body(buf@.skip(pos as int)) == Some(
                (p.0 as int, buf@.skip(p.1 as int)),
            ),
            None => match parse_num_body(buf@.skip(pos as int)) {
                Some(q) => q.0 > u64::MAX as int,
                None => true,
            },
        },
{
    let ghost s = buf@.skip(pos as int);
    let mut i: usize = pos;
    let mut val: u64 = 0;
    while i < buf.len() && 48 <= buf[i] && buf[i] <= 57
        invariant
            pos <= i <= buf.len(),
            s == buf@.skip(pos as int),
            forall|m: int| 0 <= m < i - pos ==> is_digit(s[m]),
            val as int == digits_val(s.take(i - pos)),
        decreases buf.len() - i,
    {
        let b = buf[i];
        let d = b - 48;
        let ghost j = i - pos;
        proof {
            assert(s[j as int] == buf@[i as int]);
            assert(s.take(j + 1).drop_last() =~= s.take(j as int));
            assert(digits_val(s.take(j + 1)) == digits_val(s.take(j as int)) * 10 + (s[j as int]
                - 48));
        }
        if val > (u64::MAX - d as u64) / 10 {
            // the digits overflow a 64-bit value, so they overflow the spec
            // parser's signed 64-bit bounds as well
            proof {
                vstd::arithmetic::div_mod::lemma_fundamental_div_mod(
                    (u64::MAX - d as u64) as int,
                    10,
                );
                assert(digits_val(s.take(j + 1)) > u64::MAX as int);
                lemma_digits_len_ge(s, j + 1);
                lemma_digits_len_all(s);
                lemma_digits_val_mono(s, j + 1, digits_len(s));
            }
            return None;
        }
        proof {
            vstd::arithmetic::div_mod::lemma_fundamental_div_mod((u64::MAX - d as u64) as int, 10);
        }
        val = val * 10 + d as u64;
        i = i + 1;
    }
    let ghost k = i - pos;
    proof {
        if i < buf.len() {
            assert(s[k as int] == buf@[i as int]);
        }
        lemma_digits_len_char(s, k as int);
    }
    if i == pos {
        return None;
    }
    if buf[pos] == 48 && i - pos > 1 {
        return None;
    }
    if i < buf.len() {
        let b = buf[i];
        if b == 46 || b == 101 || b == 69 {
            return None;
        }
    }
    proof {
        assert(s.skip(k as int) =~= buf@.skip(i as int));
    }
    Some((val, i))
}

/// Decode one JSON value at `pos` (no leading whitespace).
pub fn p_val(buf: &Vec<u8>, pos: usize) -> (r: Option<(JsonValue, usize)>)
    requires
        pos <= buf.len(),
    ensures
        match r {
            Some(p) => pos < p.1 <= buf@.len() && parse_val(buf@.skip(pos as int)) == Some(
                (p.0.jv(), buf@.skip(p.1 as int)),
            ),
            None => parse_val(buf@.skip(pos as int)) is None,
        },
    decreases buf.len() - pos, 0int,
{
    let ghost s = buf@.skip(pos as int);
    if pos == buf.len() {
        return None;
    }
    let b = buf[pos];
    assert(b == s[0]);
    if b == 110 {
        if buf.len() - pos >= 4 && buf[pos + 1] == 117 && buf[pos + 2] == 108 && buf[pos + 3]
            == 108 {
            proof {
                assert(s.skip(4) =~= buf@.skip(pos as int + 4));
            }
            Some((JsonValue::Null, pos + 4))
        } else {
            assert(buf.len() - pos >= 4 ==> s[1] == buf@[pos as int + 1] && s[2] == buf@[pos as int
                + 2] && s[3] == buf@[pos as int + 3]);
            None
        }
    } else if b == 116 {
        if buf.len() - pos >= 4 && buf[pos + 1] == 114 && buf[pos + 2] == 117 && buf[pos + 3]
            == 101 {
            proof {
                assert(s.skip(4) =~= buf@.skip(pos as int + 4));
            }
            Some((JsonValue::Bool(true), pos + 4))
        } else {
            assert(buf.len() - pos >= 4 ==> s[1] == buf@[pos as int + 1] && s[2] == buf@[pos as int
                + 2] && s[3] == buf@[pos as int + 3]);
            None
        }
    } else if b == 102 {
        if buf.len() - pos >= 5 && buf[pos + 1] == 97 && buf[pos + 2] == 108 && buf[pos + 3] == 115
            && buf[pos + 4] == 101 {
            proof {
                assert(s.skip(5) =~= buf@.skip(pos as int + 5));
            }
            Some((JsonValue::Bool(false), pos + 5))
        } else {
            assert(buf.len() - pos >= 5 ==> s[1] == buf@[pos as int + 1] && s[2] == buf@[pos as int
                + 2] && s[3] == buf@[pos as int + 3] && s[4] == buf@[pos as int + 4]);
            None
        }
    } else if b == 34 {
        proof {
            assert(s.drop_first() =~= buf@.skip(pos as int + 1));
        }
        match p_str_rest(buf, pos + 1) {
            Some((c, end)) => Some((JsonValue::Str(c), end)),
            None => None,
        }
    } else if b == 91 {
        proof {
            assert(s.drop_first() =~= buf@.skip(pos as int + 1));
        }
        match p_items(buf, pos + 1, true) {
            Some((vs, end)) => Some((JsonValue::Arr(vs), end)),
            None => None,
        }
    } else if b == 123 {
        proof {
            assert(s.drop_first() =~= buf@.skip(pos as int + 1));
        }
        match p_props(buf, pos + 1, true) {
            Some((ps, end)) => Some((JsonValue::Obj(ps), end)),
            None => None,
        }
    } else if b == 45 {
        proof {
            assert(s.drop_first() =~= buf@.skip(pos as int + 1));
        }
        match p_num(buf, pos + 1) {
            Some((n, end)) => {
                if n <= 9223372036854775808u64 {
                    let iv: i64 = if n == 9223372036854775808u64 {
                        i64::MIN
                    } else {
                        -(n as i64)
                    };
                    assert(iv as int == -(n as int));
                    Some((JsonValue::Int(iv), end))
                } else {
                    None
                }
            },
            None => None,
        }
    } else if 48 <= b && b <= 57 {
        match p_num(buf, pos) {
            Some((n, end)) => {
                if n <= 9223372036854775807u64 {
                    Some((JsonValue::Int(n as i64), end))
                } else {
                    None
                }
            },
            None => None,
        }
    } else {
        None
    }
}

/// Decode the elements of an array after `[`, as `parse_items` describes.
pub(crate) fn p_items(buf: &Vec<u8>, pos: usize, first: bool) -> (r: Option<
    (Vec<JsonValue>, usize),
>)
    requires
        pos <= buf.len(),
    ensures
        match r {
            Some(p) => pos < p.1 <= buf@.len() && parse_items(buf@.skip(pos as int), first)
                == Some((jv_seq(p.0@), buf@.skip(p.1 as int))),
            None => parse_items(buf@.skip(pos as int), first) is None,
        },
    decreases buf.len() - pos, 1int,
{
    let ghost s = buf@.skip(pos as int);
    let t_pos = skip_ws(buf, pos);
    let ghost t = trim(s);
    assert(buf@.skip(t_pos as int) == t);
    if t_pos == buf.len() {
        return None;
    }
    let b = buf[t_pos];
    assert(b == t[0]);
    if b == 93 {
        proof {
            assert(t.drop_first() =~= buf@.skip(t_pos as int + 1));
        }
        let vs: Vec<JsonValue> = Vec::new();
        assert(jv_seq(vs@) =~= Seq::<JVal>::empty());
        return Some((vs, t_pos + 1));
    }
    if first {
        match p_val(buf, t_pos) {
            Some((v, end)) => {
                match p_items(buf, end, false) {
                    Some((vs, end2)) => {
                        let mut vs = vs;
                        let ghost vv = vs@;
                        vs.insert(0, v);
                        proof {
                            lemma_jv_seq_prepend(v, vv);
                            assert(vs@ == vv.insert(0, v));
                        }
                        Some((vs, end2))
                    },
                    None => None,
                }
            },
            None => None,
        }
    } else if b == 44 {
        proof {
            assert(t.drop_first() =~= buf@.skip(t_pos as int + 1));
        }
        let u_pos = skip_ws(buf, t_pos + 1);
        let ghost u = trim(t.drop_first());
        assert(buf@.skip(u_pos as int) == u);
        match p_val(buf, u_pos) {
            Some((v, end)) => {
                match p_items(buf, end, false) {
                    Some((vs, end2)) => {
                        let mut vs = vs;
                        let ghost vv = vs@;
                        vs.insert(0, v);
                        proof {
                            lemma_jv_seq_prepend(v, vv);
                        }
                        Some((vs, end2))
                    },
                    None => None,
                }
            },
            None => None,
        }
    } else {
        None
    }
}

/// Decode one object property: quoted key, colon, value.
pub(crate) fn p_prop_at(buf: &Vec<u8>, pos: usize) -> (r: Option<(Vec<u8>, JsonValue, usize)>)
    requires
        pos <= buf.len(),
    ensures
        match r {
            Some(p) => pos < p.2 <= buf@.len() && parse_prop_at(buf@.skip(pos as int)) == Some(
                ((p.0@, p.1.jv()), buf@.skip(p.2 as int)),
            ),
            None => parse_prop_at(buf@.skip(pos as int)) is None,
        },
    decreases buf.len() - pos, 0int,
{
    let ghost w = buf@.skip(pos as int);
    if pos == buf.len() || buf[pos] != 34 {
        return None;
    }
    assert(buf@[pos as int] == w[0]);
    proof {
        assert(w.drop_first() =~= buf@.skip(pos as int + 1));
    }
    match p_str_rest(buf, pos + 1) {
        Some((k, r_pos)) => {
            let r2_pos = skip_ws(buf, r_pos);
            let ghost r2 = trim(buf@.skip(r_pos as int));
            assert(buf@.skip(r2_pos as int) == r2);
            if r2_pos == buf.len() {
                return None;
            }
            if buf[r2_pos] != 58 {
                assert(buf@[r2_pos as int] == r2[0]);
                return None;
            }
            assert(buf@[r2_pos as int] == r2[0]);
            proof {
                assert(r2.drop_first() =~= buf@.skip(r2_pos as int + 1));
            }
            let r3_pos = skip_ws(buf, r2_pos + 1);
            let ghost r3 = trim(r2.drop_first());
            assert(buf@.skip(r3_pos as int) == r3);
            match p_val(buf, r3_pos) {
                Some((v, end)) => Some((k, v, end)),
                None => None,
            }
        },
        None => None,
    }
}

/// Decode the properties of an object after `{`, as `parse_props` describes.
pub(crate) fn p_props(buf: &Vec<u8>, pos: usize, first: bool) -> (r: Option<
    (Vec<(Vec<u8>, JsonValue)>, usize),
>)
    requires
        pos <= buf.len(),
    ensures
        match r {
            Some(p) => pos < p.1 <= buf@.len() && parse_props(buf@.skip(pos as int), first)
                == Some((jv_props(p.0@), buf@.skip(p.1 as int))),
            None => parse_props(buf@.skip(pos as int), first) is None,
        },
    decreases buf.len() - pos, 1int,
{
    let ghost s = buf@.skip(pos as int);
    let t_pos = skip_ws(buf, pos);
    let ghost t = trim(s);
    assert(buf@.skip(t_pos as int) == t);
    if t_pos == buf.len() {
        return None;
    }
    let b = buf[t_pos];
    assert(b == t[0]);
    if b == 125 {
        proof {
            assert(t.drop_first() =~= buf@.skip(t_pos as int + 1));
        }
        let ps: Vec<(Vec<u8>, JsonValue)> = Vec::new();
        assert(jv_props(ps@) =~= Seq::<(Seq<u8>, JVal)>::empty());
        return Some((ps, t_pos + 1));
    }
    if first {
        match p_prop_at(buf, t_pos) {
            Some((k, v, end)) => {
                match p_props(buf, end, false) {
                    Some((ps, end2)) => {
                        let mut ps = ps;
                        let ghost pv = ps@;
                        ps.insert(0, (k, v));
                        proof {
                            lemma_jv_props_prepend((k, v), pv);
                        }
                        Some((ps, end2))
                    },
                    None => None,
                }
            },
            None => None,
        }
    } else if b == 44 {
        proof {
            assert(t.drop_first() =~= buf@.skip(t_pos as int + 1));
        }
        let u_pos = skip_ws(buf, t_pos + 1);
        let ghost u = trim(t.drop_first());
        assert(buf@.skip(u_pos as int) == u);
        match p_prop_at(buf, u_pos) {
            Some((k, v, end)) => {
                match p_props(buf, end, false) {
                    Some((ps, end2)) => {
                        let mut ps = ps;
                        let ghost pv = ps@;
                        ps.insert(0, (k, v));
                        proof {
                            lemma_jv_props_prepend((k, v), pv);
                        }
                        Some((ps, end2))
                    },
                    None => None,
                }
            },
            None => None,
        }
    } else {
        None
    }
}

} // verus!
