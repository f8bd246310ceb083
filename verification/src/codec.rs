//! The envelope codec: how each request and response maps to JSON, and the
//! staged encode and decode of whole frames.
//!
//! Outbound envelopes are written as `{"type": <tag>}` with an optional
//! `"data"` member, exactly as the remote side frames them; inbound
//! envelopes are read back from the same shape, looking each member up by
//! name (the first occurrence wins), so member order and whitespace on the
//! wire do not matter.

use vstd::prelude::*;
use crate::json::{JVal, JsonValue, jv_seq, jv_props, ser_jv};
use crate::types::{HLAPIError, HLAPISend, SendModel, HLAPIReceive, RecvModel, HLAPIDeviceHandle,
    HLAPIDeviceDescriptor, DescModel, HLAPIMethod, MethodModel, HLAPIType, handle_wf, bytes_model,
    descs_model, methods_model, types_model, opt_model, eq_bytes};
use crate::frame::{MAX_WRITE, frame_bytes, spec_decode_frame, encode_frame, decode_frame};
use crate::ser::write_json;
use crate::roundtrip::{lemma_frame_round_trip, lemma_jv_wf_seq};

verus! {

/// The wire bytes of `"type"`.
pub open spec fn k_type() -> Seq<u8> {
    seq![116u8, 121u8, 112u8, 101u8]
}

/// The wire bytes of `"data"`.
pub open spec fn k_data() -> Seq<u8> {
    seq![100u8, 97u8, 116u8, 97u8]
}

/// The wire bytes of `"list"`.
pub open spec fn t_list() -> Seq<u8> {
    seq![108u8, 105u8, 115u8, 116u8]
}

/// The wire bytes of `"methods"`.
pub open spec fn t_methods() -> Seq<u8> {
    seq![109u8, 101u8, 116u8, 104u8, 111u8, 100u8, 115u8]
}

/// The wire bytes of `"invoke"`.
pub open spec fn t_invoke() -> Seq<u8> {
    seq![105u8, 110u8, 118u8, 111u8, 107u8, 101u8]
}

/// The wire bytes of `"error"`.
pub open spec fn t_error() -> Seq<u8> {
    seq![101u8, 114u8, 114u8, 111u8, 114u8]
}

/// The wire bytes of `"result"`.
pub open spec fn t_result() -> Seq<u8> {
    seq![114u8, 101u8, 115u8, 117u8, 108u8, 116u8]
}

/// The wire bytes of `"deviceId"`.
pub open spec fn k_device_id() -> Seq<u8> {
    seq![100u8, 101u8, 118u8, 105u8, 99u8, 101u8, 73u8, 100u8]
}

/// The wire bytes of `"name"`.
pub open spec fn k_name() -> Seq<u8> {
    seq![110u8, 97u8, 109u8, 101u8]
}

/// The wire bytes of `"parameters"`.
pub open spec fn k_parameters() -> Seq<u8> {
    seq![112u8, 97u8, 114u8, 97u8, 109u8, 101u8, 116u8, 101u8, 114u8, 115u8]
}

/// The wire bytes of `"typeNames"`.
pub open spec fn k_type_names() -> Seq<u8> {
    seq![116u8, 121u8, 112u8, 101u8, 78u8, 97u8, 109u8, 101u8, 115u8]
}

/// The wire bytes of `"returnType"`.
pub open spec fn k_return_type() -> Seq<u8> {
    seq![114u8, 101u8, 116u8, 117u8, 114u8, 110u8, 84u8, 121u8, 112u8, 101u8]
}

/// The wire bytes of `"description"`.
pub open spec fn k_description() -> Seq<u8> {
    seq![100u8, 101u8, 115u8, 99u8, 114u8, 105u8, 112u8, 116u8, 105u8, 111u8, 110u8]
}

/// The wire bytes of `"returnValueDescription"`.
pub open spec fn k_rv_description() -> Seq<u8> {
    seq![114u8, 101u8, 116u8, 117u8, 114u8, 110u8, 86u8, 97u8, 108u8, 117u8, 101u8, 68u8, 101u8, 115u8, 99u8, 114u8, 105u8, 112u8, 116u8, 105u8, 111u8, 110u8]
}

fn k_type_v() -> (r: Vec<u8>)
    ensures
        r@ == k_type(),
{
    let mut v: Vec<u8> = Vec::new();
    v.push(116);
    v.push(121);
    v.push(112);
    v.push(101);
    proof {
        assert(v@ =~= k_type());
    }
    v
}

fn k_data_v() -> (r: Vec<u8>)
    ensures
        r@ == k_data(),
{
    let mut v: Vec<u8> = Vec::new();
    v.push(100);
    v.push(97);
    v.push(116);
    v.push(97);
    proof {
        assert(v@ =~= k_data());
    }
    v
}

fn t_list_v() -> (r: Vec<u8>)
    ensures
        r@ == t_list(),
{
    let mut v: Vec<u8> = Vec::new();
    v.push(108);
    v.push(105);
    v.push(115);
    v.push(116);
    proof {
        assert(v@ =~= t_list());
    }
    v
}

fn t_methods_v() -> (r: Vec<u8>)
    ensures
        r@ == t_methods(),
{
    let mut v: Vec<u8> = Vec::new();
    v.push(109);
    v.push(101);
    v.push(116);
    v.push(104);
    v.push(111);
    v.push(100);
    v.push(115);
    proof {
        assert(v@ =~= t_methods());
    }
    v
}

fn t_invoke_v() -> (r: Vec<u8>)
    ensures
        r@ == t_invoke(),
{
    let mut v: Vec<u8> = Vec::new();
    v.push(105);
    v.push(110);
    v.push(118);
    v.push(111);
    v.push(107);
    v.push(101);
    proof {
        assert(v@ =~= t_invoke());
    }
    v
}

fn t_error_v() -> (r: Vec<u8>)
    ensures
        r@ == t_error(),
{
    let mut v: Vec<u8> = Vec::new();
    v.push(101);
    v.push(114);
    v.push(114);
    v.push(111);
    v.push(114);
    proof {
        assert(v@ =~= t_error());
    }
    v
}

fn t_result_v() -> (r: Vec<u8>)
    ensures
        r@ == t_result(),
{
    let mut v: Vec<u8> = Vec::new();
    v.push(114);
    v.push(101);
    v.push(115);
    v.push(117);
    v.push(108);
    v.push(116);
    proof {
        assert(v@ =~= t_result());
    }
    v
}

fn k_device_id_v() -> (r: Vec<u8>)
    ensures
        r@ == k_device_id(),
{
    let mut v: Vec<u8> = Vec::new();
    v.push(100);
    v.push(101);
    v.push(118);
    v.push(105);
    v.push(99);
    v.push(101);
    v.push(73);
    v.push(100);
    proof {
        assert(v@ =~= k_device_id());
    }
    v
}

fn k_name_v() -> (r: Vec<u8>)
    ensures
        r@ == k_name(),
{
    let mut v: Vec<u8> = Vec::new();
    v.push(110);
    v.push(97);
    v.push(109);
    v.push(101);
    proof {
        assert(v@ =~= k_name());
    }
    v
}

fn k_parameters_v() -> (r: Vec<u8>)
    ensures
        r@ == k_parameters(),
{
    let mut v: Vec<u8> = Vec::new();
    v.push(112);
    v.push(97);
    v.push(114);
    v.push(97);
    v.push(109);
    v.push(101);
    v.push(116);
    v.push(101);
    v.push(114);
    v.push(115);
    proof {
        assert(v@ =~= k_parameters());
    }
    v
}

fn k_type_names_v() -> (r: Vec<u8>)
    ensures
        r@ == k_type_names(),
{
    let mut v: Vec<u8> = Vec::new();
    v.push(116);
    v.push(121);
    v.push(112);
    v.push(101);
    v.push(78);
    v.push(97);
    v.push(109);
    v.push(101);
    v.push(115);
    proof {
        assert(v@ =~= k_type_names());
    }
    v
}

fn k_return_type_v() -> (r: Vec<u8>)
    ensures
        r@ == k_return_type(),
{
    let mut v: Vec<u8> = Vec::new();
    v.push(114);
    v.push(101);
    v.push(116);
    v.push(117);
    v.push(114);
    v.push(110);
    v.push(84);
    v.push(121);
    v.push(112);
    v.push(101);
    proof {
        assert(v@ =~= k_return_type());
    }
    v
}

fn k_description_v() -> (r: Vec<u8>)
    ensures
        r@ == k_description(),
{
    let mut v: Vec<u8> = Vec::new();
    v.push(100);
    v.push(101);
    v.push(115);
    v.push(99);
    v.push(114);
    v.push(105);
    v.push(112);
    v.push(116);
    v.push(105);
    v.push(111);
    v.push(110);
    proof {
        assert(v@ =~= k_description());
    }
    v
}

fn k_rv_description_v() -> (r: Vec<u8>)
    ensures
        r@ == k_rv_description(),
{
    let mut v: Vec<u8> = Vec::new();
    v.push(114);
    v.push(101);
    v.push(116);
    v.push(117);
    v.push(114);
    v.push(110);
    v.push(86);
    v.push(97);
    v.push(108);
    v.push(117);
    v.push(101);
    v.push(68);
    v.push(101);
    v.push(115);
    v.push(99);
    v.push(114);
    v.push(105);
    v.push(112);
    v.push(116);
    v.push(105);
    v.push(111);
    v.push(110);
    proof {
        assert(v@ =~= k_rv_description());
    }
    v
}

/// The JSON form of an outbound envelope: tag under `"type"`, payload under
/// `"data"` (none for `list`).
pub open spec fn send_jv(m: SendModel) -> JVal {
    match m {
        SendModel::List => JVal::Obj(seq![(k_type(), JVal::Str(t_list()))]),
        SendModel::Methods(h) => JVal::Obj(
            seq![(k_type(), JVal::Str(t_methods())), (k_data(), JVal::Str(h))],
        ),
        SendModel::Invoke { device_id, method_name, parameters } => JVal::Obj(
            seq![
                (k_type(), JVal::Str(t_invoke())),
                (
                    k_data(),
                    JVal::Obj(
                        seq![
                            (k_device_id(), JVal::Str(device_id)),
                            (k_name(), JVal::Str(method_name)),
                            (k_parameters(), JVal::Arr(parameters)),
                        ],
                    ),
                ),
            ],
        ),
    }
}

/// Stage one outbound envelope: its JSON text between two delimiters,
/// refused whole with `PayloadTooLarge` when the frame would exceed the cap.
/// Nothing is handed to the device by this crate, so a refused envelope has
/// written nothing.
pub fn encode_send(e: HLAPISend) -> (r: Result<Vec<u8>, HLAPIError>)
    ensures
        match r {
            Ok(out) => ser_jv(send_jv(e@)).len() + 2 <= MAX_WRITE && out@ == frame_bytes(
                ser_jv(send_jv(e@)),
            ),
            Err(err) => err == HLAPIError::PayloadTooLarge && ser_jv(send_jv(e@)).len() + 2
                > MAX_WRITE,
        },
{
    let ghost m = e@;
    let j: JsonValue = match e {
        HLAPISend::List => {
            let mut ps: Vec<(Vec<u8>, JsonValue)> = Vec::new();
            ps.push((k_type_v(), JsonValue::Str(t_list_v())));
            let j = JsonValue::Obj(ps);
            proof {
                assert(jv_props(ps@) =~= seq![(k_type(), JVal::Str(t_list()))]);
            }
            j
        },
        HLAPISend::Methods(h) => {
            let mut ps: Vec<(Vec<u8>, JsonValue)> = Vec::new();
            let ghost hv = h@;
            ps.push((k_type_v(), JsonValue::Str(t_methods_v())));
            ps.push((k_data_v(), JsonValue::Str(h.text)));
            let j = JsonValue::Obj(ps);
            proof {
                assert(jv_props(ps@) =~= seq![
                    (k_type(), JVal::Str(t_methods())),
                    (k_data(), JVal::Str(hv)),
                ]);
            }
            j
        },
        HLAPISend::Invoke { device_id, method_name, parameters } => {
            let ghost dv = device_id@;
            let ghost nv = method_name@;
            let ghost pv = jv_seq(parameters@);
            let mut inner: Vec<(Vec<u8>, JsonValue)> = Vec::new();
            inner.push((k_device_id_v(), JsonValue::Str(device_id.text)));
            inner.push((k_name_v(), JsonValue::Str(method_name)));
            inner.push((k_parameters_v(), JsonValue::Arr(parameters)));
            proof {
                assert(jv_props(inner@) =~= seq![
                    (k_device_id(), JVal::Str(dv)),
                    (k_name(), JVal::Str(nv)),
                    (k_parameters(), JVal::Arr(pv)),
                ]);
            }
            let mut ps: Vec<(Vec<u8>, JsonValue)> = Vec::new();
            ps.push((k_type_v(), JsonValue::Str(t_invoke_v())));
            ps.push((k_data_v(), JsonValue::Obj(inner)));
            let j = JsonValue::Obj(ps);
            proof {
                assert(jv_props(ps@) =~= seq![
                    (k_type(), JVal::Str(t_invoke())),
                    (k_data(), JVal::Obj(jv_props(inner@))),
                ]);
            }
            j
        },
    };
    assert(j.jv() == send_jv(m));
    let mut payload: Vec<u8> = Vec::new();
    write_json(&j, &mut payload);
    proof {
        assert(Seq::<u8>::empty() + ser_jv(j.jv()) =~= ser_jv(j.jv()));
    }
    encode_frame(payload)
}

/// Everything an outbound envelope encodes to is itself decodable.
pub proof fn lemma_send_wf(e: HLAPISend)
    ensures
        send_jv(e@).wf(),
{
    match e {
        HLAPISend::List => {
            let ps = seq![(k_type(), JVal::Str(t_list()))];
            assert(ps.drop_first() =~= Seq::<(Seq<u8>, JVal)>::empty());
            assert(crate::json::wf_props(Seq::<(Seq<u8>, JVal)>::empty()));
            assert(ps[0].1.wf());
            assert(crate::json::wf_props(ps));
        },
        HLAPISend::Methods(h) => {
            let ps = seq![(k_type(), JVal::Str(t_methods())), (k_data(), JVal::Str(h@))];
            let ps1 = seq![(k_data(), JVal::Str(h@))];
            assert(ps.drop_first() =~= ps1);
            assert(ps1.drop_first() =~= Seq::<(Seq<u8>, JVal)>::empty());
            assert(crate::json::wf_props(Seq::<(Seq<u8>, JVal)>::empty()));
            assert(ps1[0].1.wf());
            assert(crate::json::wf_props(ps1));
            assert(ps[0].1.wf());
            assert(crate::json::wf_props(ps));
        },
        HLAPISend::Invoke { device_id, method_name, parameters } => {
            lemma_jv_wf_seq(parameters@);
            let inner = seq![
                (k_device_id(), JVal::Str(device_id@)),
                (k_name(), JVal::Str(method_name@)),
                (k_parameters(), JVal::Arr(jv_seq(parameters@))),
            ];
            let inner1 = seq![
                (k_name(), JVal::Str(method_name@)),
                (k_parameters(), JVal::Arr(jv_seq(parameters@))),
            ];
            let inner2 = seq![(k_parameters(), JVal::Arr(jv_seq(parameters@)))];
            assert(inner.drop_first() =~= inner1);
            assert(inner1.drop_first() =~= inner2);
            assert(inner2.drop_first() =~= Seq::<(Seq<u8>, JVal)>::empty());
            assert(crate::json::wf_props(Seq::<(Seq<u8>, JVal)>::empty()));
            assert(inner2[0].1.wf());
            assert(crate::json::wf_props(inner2));
            assert(inner1[0].1.wf());
            assert(crate::json::wf_props(inner1));
            assert(inner[0].1.wf());
            assert(crate::json::wf_props(inner));
            let ps = seq![
                (k_type(), JVal::Str(t_invoke())),
                (k_data(), JVal::Obj(inner)),
            ];
            let ps1 = seq![(k_data(), JVal::Obj(inner))];
            assert(ps.drop_first() =~= ps1);
            assert(ps1.drop_first() =~= Seq::<(Seq<u8>, JVal)>::empty());
            assert(ps1[0].1.wf());
            assert(crate::json::wf_props(ps1));
            assert(ps[0].1.wf());
            assert(crate::json::wf_props(ps));
        },
    }
}

/// An outbound envelope read back from its JSON form: the inverse of
/// `send_jv`.
pub open spec fn send_of_jv(v: JVal) -> Option<SendModel> {
    match v {
        JVal::Obj(ps) => match obj_get(ps, k_type()) {
            Some(JVal::Str(tag)) => if tag == t_list() {
                Some(SendModel::List)
            } else if tag == t_methods() {
                match obj_get(ps, k_data()) {
                    Some(JVal::Str(h)) => Some(SendModel::Methods(h)),
                    _ => None,
                }
            } else if tag == t_invoke() {
                match obj_get(ps, k_data()) {
                    Some(JVal::Obj(qs)) => match obj_get(qs, k_device_id()) {
                        Some(JVal::Str(d)) => match obj_get(qs, k_name()) {
                            Some(JVal::Str(n)) => match obj_get(qs, k_parameters()) {
                                Some(JVal::Arr(args)) => Some(
                                    SendModel::Invoke {
                                        device_id: d,
                                        method_name: n,
                                        parameters: args,
                                    },
                                ),
                                _ => None,
                            },
                            _ => None,
                        },
                        _ => None,
                    },
                    _ => None,
                }
            } else {
                None
            },
            _ => None,
        },
        _ => None,
    }
}

/// Encoding an envelope to its JSON form loses nothing: reading the form
/// back yields the same envelope, field for field.
pub proof fn lemma_send_jv_lossless(m: SendModel)
    ensures
        send_of_jv(send_jv(m)) == Some(m),
{
    assert(k_type()[0] == 116 && k_data()[0] == 100);
    assert(t_list().len() == 4 && t_methods().len() == 7 && t_invoke().len() == 6);
    match m {
        SendModel::List => {
        },
        SendModel::Methods(h) => {
            let ps = seq![(k_type(), JVal::Str(t_methods())), (k_data(), JVal::Str(h))];
            assert(ps.drop_first() =~= seq![(k_data(), JVal::Str(h))]);
            assert(obj_get(seq![(k_data(), JVal::Str(h))], k_data()) == Some(JVal::Str(h)));
            assert(obj_get(ps, k_data()) == Some(JVal::Str(h)));
        },
        SendModel::Invoke { device_id, method_name, parameters } => {
            let qs = seq![
                (k_device_id(), JVal::Str(device_id)),
                (k_name(), JVal::Str(method_name)),
                (k_parameters(), JVal::Arr(parameters)),
            ];
            let ps = seq![(k_type(), JVal::Str(t_invoke())), (k_data(), JVal::Obj(qs))];
            assert(ps.drop_first() =~= seq![(k_data(), JVal::Obj(qs))]);
            assert(obj_get(seq![(k_data(), JVal::Obj(qs))], k_data()) == Some(JVal::Obj(qs)));
            assert(obj_get(ps, k_data()) == Some(JVal::Obj(qs)));
            assert(k_device_id().len() == 8 && k_name().len() == 4 && k_parameters().len() == 10);
            assert(k_name()[0] == 110 && k_type()[0] == 116);
            let qs1 = seq![
                (k_name(), JVal::Str(method_name)),
                (k_parameters(), JVal::Arr(parameters)),
            ];
            let qs2 = seq![(k_parameters(), JVal::Arr(parameters))];
            assert(qs.drop_first() =~= qs1);
            assert(qs1.drop_first() =~= qs2);
            assert(obj_get(qs2, k_parameters()) == Some(JVal::Arr(parameters)));
            assert(obj_get(qs1, k_name()) == Some(JVal::Str(method_name)));
            assert(obj_get(qs1, k_parameters()) == Some(JVal::Arr(parameters)));
            assert(obj_get(qs, k_device_id()) == Some(JVal::Str(device_id)));
            assert(obj_get(qs, k_name()) == Some(JVal::Str(method_name)));
            assert(obj_get(qs, k_parameters()) == Some(JVal::Arr(parameters)));
        },
    }
}

/// Round trip: the bytes staged for any outbound envelope decode back to
/// exactly that envelope's JSON form, and the form reads back as the same
/// envelope, field for field.
pub proof fn lemma_envelope_round_trip(e: HLAPISend)
    ensures
        spec_decode_frame(frame_bytes(ser_jv(send_jv(e@)))) == Ok::<JVal, HLAPIError>(
            send_jv(e@),
        ),
        send_of_jv(send_jv(e@)) == Some(e@),
{
    lemma_send_wf(e);
    lemma_frame_round_trip(send_jv(e@));
    lemma_send_jv_lossless(e@);
}

/// The first value under key `k` of an object's properties, if any.
pub open spec fn obj_get(ps: Seq<(Seq<u8>, JVal)>, k: Seq<u8>) -> Option<JVal>
    decreases ps.len(),
{
    if ps.len() == 0 {
        None
    } else if ps[0].0 == k {
        Some(ps[0].1)
    } else {
        obj_get(ps.drop_first(), k)
    }
}

/// Model of an optional executable value.
pub open spec fn opt_jv(o: Option<JsonValue>) -> Option<JVal> {
    match o {
        Some(v) => Some(v.jv()),
        None => None,
    }
}

/// Pull the first `k1`-keyed and the first `k2`-keyed members out of an
/// object, exactly as two `obj_get` lookups would see them.
fn split_two(ps: Vec<(Vec<u8>, JsonValue)>, k1: &Vec<u8>, k2: &Vec<u8>) -> (r: (
    Option<JsonValue>,
    Option<JsonValue>,
))
    requires
        k1@ != k2@,
    ensures
        opt_jv(r.0) == obj_get(jv_props(ps@), k1@),
        opt_jv(r.1) == obj_get(jv_props(ps@), k2@),
{
    let ghost orig = jv_props(ps@);
    let mut ps = ps;
    let mut r1: Option<JsonValue> = None;
    let mut r2: Option<JsonValue> = None;
    while ps.len() > 0
        invariant
            k1@ != k2@,
            obj_get(orig, k1@) == match r1 {
                Some(v) => Some(v.jv()),
                None => obj_get(jv_props(ps@), k1@),
            },
            obj_get(orig, k2@) == match r2 {
                Some(v) => Some(v.jv()),
                None => obj_get(jv_props(ps@), k2@),
            },
        decreases ps.len(),
    {
        let ghost prev = ps@;
        let (k, v) = ps.remove(0);
        proof {
            assert(ps@ =~= prev.drop_first());
            assert(jv_props(prev).drop_first() =~= jv_props(prev.drop_first()));
            assert(jv_props(prev)[0] == (k@, v.jv()));
        }
        let is1 = eq_bytes(&k, k1);
        let is2 = eq_bytes(&k, k2);
        if r1.is_none() && is1 {
            r1 = Some(v);
        } else if r2.is_none() && is2 {
            r2 = Some(v);
        }
    }
    proof {
        assert(jv_props(ps@) =~= Seq::<(Seq<u8>, JVal)>::empty());
    }
    (r1, r2)
}

/// Pull the five members of a method descriptor out of an object, exactly
/// as five `obj_get` lookups would see them.
fn split_method(ps: Vec<(Vec<u8>, JsonValue)>) -> (r: (
    Option<JsonValue>,
    Option<JsonValue>,
    Option<JsonValue>,
    Option<JsonValue>,
    Option<JsonValue>,
))
    ensures
        opt_jv(r.0) == obj_get(jv_props(ps@), k_name()),
        opt_jv(r.1) == obj_get(jv_props(ps@), k_parameters()),
        opt_jv(r.2) == obj_get(jv_props(ps@), k_return_type()),
        opt_jv(r.3) == obj_get(jv_props(ps@), k_description()),
        opt_jv(r.4) == obj_get(jv_props(ps@), k_rv_description()),
{
    proof {
        assert(k_parameters()[0] == 112 && k_return_type()[0] == 114);
    }
    let kn = k_name_v();
    let kp = k_parameters_v();
    let kr = k_return_type_v();
    let kd = k_description_v();
    let kv = k_rv_description_v();
    let ghost orig = jv_props(ps@);
    let mut ps = ps;
    let mut r0: Option<JsonValue> = None;
    let mut r1: Option<JsonValue> = None;
    let mut r2: Option<JsonValue> = None;
    let mut r3: Option<JsonValue> = None;
    let mut r4: Option<JsonValue> = None;
    while ps.len() > 0
        invariant
            kn@ == k_name() && kp@ == k_parameters() && kr@ == k_return_type() && kd@
                == k_description() && kv@ == k_rv_description(),
            obj_get(orig, k_name()) == match r0 {
                Some(v) => Some(v.jv()),
                None => obj_get(jv_props(ps@), k_name()),
            },
            obj_get(orig, k_parameters()) == match r1 {
                Some(v) => Some(v.jv()),
                None => obj_get(jv_props(ps@), k_parameters()),
            },
            obj_get(orig, k_return_type()) == match r2 {
                Some(v) => Some(v.jv()),
                None => obj_get(jv_props(ps@), k_return_type()),
            },
            obj_get(orig, k_description()) == match r3 {
                Some(v) => Some(v.jv()),
                None => obj_get(jv_props(ps@), k_description()),
            },
            obj_get(orig, k_rv_description()) == match r4 {
                Some(v) => Some(v.jv()),
                None => obj_get(jv_props(ps@), k_rv_description()),
            },
        decreases ps.len(),
    {
        let ghost prev = ps@;
        let (k, v) = ps.remove(0);
        proof {
            assert(ps@ =~= prev.drop_first());
            assert(jv_props(prev).drop_first() =~= jv_props(prev.drop_first()));
            assert(jv_props(prev)[0] == (k@, v.jv()));
            assert(k_parameters()[0] == 112 && k_return_type()[0] == 114);
        }
        if r0.is_none() && eq_bytes(&k, &kn) {
            r0 = Some(v);
        } else if r1.is_none() && eq_bytes(&k, &kp) {
            r1 = Some(v);
        } else if r2.is_none() && eq_bytes(&k, &kr) {
            r2 = Some(v);
        } else if r3.is_none() && eq_bytes(&k, &kd) {
            r3 = Some(v);
        } else if r4.is_none() && eq_bytes(&k, &kv) {
            r4 = Some(v);
        }
    }
    proof {
        assert(jv_props(ps@) =~= Seq::<(Seq<u8>, JVal)>::empty());
    }
    (r0, r1, r2, r3, r4)
}

/// All elements read as strings, in order.
pub open spec fn strs_of(es: Seq<JVal>) -> Option<Seq<Seq<u8>>>
    decreases es.len(),
{
    if es.len() == 0 {
        Some(Seq::empty())
    } else {
        match es[0] {
            JVal::Str(c) => match strs_of(es.drop_first()) {
                Some(t) => Some(seq![c] + t),
                None => None,
            },
            _ => None,
        }
    }
}

/// One descriptor read from its JSON object: a canonical device handle under
/// `"deviceId"` and a non-empty string array under `"typeNames"` (an empty
/// component list is a protocol violation).
pub open spec fn desc_of_jv(v: JVal) -> Option<DescModel> {
    match v {
        JVal::Obj(ps) => match obj_get(ps, k_device_id()) {
            Some(JVal::Str(id)) => if handle_wf(id) {
                match obj_get(ps, k_type_names()) {
                    Some(JVal::Arr(es)) => match strs_of(es) {
                        Some(cs) => if cs.len() > 0 {
                            Some(DescModel { device_id: id, components: cs })
                        } else {
                            None
                        },
                        None => None,
                    },
                    _ => None,
                }
            } else {
                None
            },
            _ => None,
        },
        _ => None,
    }
}

/// All elements read as descriptors, in order.
pub open spec fn descs_of(es: Seq<JVal>) -> Option<Seq<DescModel>>
    decreases es.len(),
{
    if es.len() == 0 {
        Some(Seq::empty())
    } else {
        match desc_of_jv(es[0]) {
            Some(d) => match descs_of(es.drop_first()) {
                Some(t) => Some(seq![d] + t),
                None => None,
            },
            None => None,
        }
    }
}

/// One parameter record read from its JSON object: the string under `"type"`.
pub open spec fn param_of_jv(v: JVal) -> Option<Seq<u8>> {
    match v {
        JVal::Obj(ps) => match obj_get(ps, k_type()) {
            Some(JVal::Str(t)) => Some(t),
            _ => None,
        },
        _ => None,
    }
}

/// All elements read as parameter records, in order.
pub open spec fn params_of(es: Seq<JVal>) -> Option<Seq<Seq<u8>>>
    decreases es.len(),
{
    if es.len() == 0 {
        Some(Seq::empty())
    } else {
        match param_of_jv(es[0]) {
            Some(p) => match params_of(es.drop_first()) {
                Some(t) => Some(seq![p] + t),
                None => None,
            },
            None => None,
        }
    }
}

/// An optional string member: absent or `null` reads as no value.
pub open spec fn opt_str_of(o: Option<JVal>) -> Option<Option<Seq<u8>>> {
    match o {
        None => Some(None),
        Some(JVal::Null) => Some(None),
        Some(JVal::Str(c)) => Some(Some(c)),
        Some(_) => None,
    }
}

/// One method descriptor read from its JSON object: `"name"` and
/// `"returnType"` are required strings, `"parameters"` defaults to the empty
/// list when absent, and the two description members are optional.
pub open spec fn method_of_jv(v: JVal) -> Option<MethodModel> {
    match v {
        JVal::Obj(ps) => match obj_get(ps, k_name()) {
            Some(JVal::Str(nm)) => {
                let pars = match obj_get(ps, k_parameters()) {
                    None => Some(Seq::<Seq<u8>>::empty()),
                    Some(JVal::Arr(es)) => params_of(es),
                    Some(_) => None,
                };
                let rt = match obj_get(ps, k_return_type()) {
                    Some(JVal::Str(t)) => Some(t),
                    _ => None,
                };
                let de = opt_str_of(obj_get(ps, k_description()));
                let rd = opt_str_of(obj_get(ps, k_rv_description()));
                match pars {
                    Some(pars) => match rt {
                        Some(rt) => match de {
                            Some(de) => match rd {
                                Some(rd) => Some(
                                    MethodModel {
                                        name: nm,
                                        parameters: pars,
                                        return_type: rt,
                                        description: de,
                                        return_value_description: rd,
                                    },
                                ),
                                None => None,
                            },
                            None => None,
                        },
                        None => None,
                    },
                    None => None,
                }
            },
            _ => None,
        },
        _ => None,
    }
}

/// All elements read as method descriptors, in order.
pub open spec fn methods_of(es: Seq<JVal>) -> Option<Seq<MethodModel>>
    decreases es.len(),
{
    if es.len() == 0 {
        Some(Seq::empty())
    } else {
        match method_of_jv(es[0]) {
            Some(m) => match methods_of(es.drop_first()) {
                Some(t) => Some(seq![m] + t),
                None => None,
            },
            None => None,
        }
    }
}

/// One inbound envelope read from its JSON form: the tag under `"type"`
/// picks the variant, the payload sits under `"data"`; for `result` an
/// absent payload reads as `null` (the remote's way of signalling no value).
pub open spec fn recv_of_jv(v: JVal) -> Option<RecvModel> {
    match v {
        JVal::Obj(ps) => match obj_get(ps, k_type()) {
            Some(JVal::Str(tag)) => if tag == t_list() {
                match obj_get(ps, k_data()) {
                    Some(JVal::Arr(es)) => match descs_of(es) {
                        Some(ds) => Some(RecvModel::List(ds)),
                        None => None,
                    },
                    _ => None,
                }
            } else if tag == t_methods() {
                match obj_get(ps, k_data()) {
                    Some(JVal::Arr(es)) => match methods_of(es) {
                        Some(ms) => Some(RecvModel::Methods(ms)),
                        None => None,
                    },
                    _ => None,
                }
            } else if tag == t_error() {
                match opt_str_of(obj_get(ps, k_data())) {
                    Some(msg) => Some(RecvModel::Error(msg)),
                    None => None,
                }
            } else if tag == t_result() {
                match obj_get(ps, k_data()) {
                    Some(d) => Some(RecvModel::Result(d)),
                    None => Some(RecvModel::Result(JVal::Null)),
                }
            } else {
                None
            },
            _ => None,
        },
        _ => None,
    }
}

/// What decoding a staged inbound frame into an envelope yields: framing
/// errors as `spec_decode_frame` reports them, and `InvalidData` when the
/// payload decodes but does not read as an inbound envelope.
pub open spec fn spec_decode_receive(buf: Seq<u8>) -> Result<RecvModel, HLAPIError> {
    match spec_decode_frame(buf) {
        Ok(v) => match recv_of_jv(v) {
            Some(m) => Ok(m),
            None => Err(HLAPIError::InvalidData),
        },
        Err(e) => Err(e),
    }
}

/// Read the elements of a string array.
fn strs_from(es: Vec<JsonValue>) -> (r: Option<Vec<Vec<u8>>>)
    ensures
        match r {
            Some(cs) => strs_of(jv_seq(es@)) == Some(bytes_model(cs@)),
            None => strs_of(jv_seq(es@)) is None,
        },
{
    let ghost orig = jv_seq(es@);
    let mut rem = es;
    let mut out: Vec<Vec<u8>> = Vec::new();
    while rem.len() > 0
        invariant
            orig == jv_seq(es@),
            match strs_of(jv_seq(rem@)) {
                Some(t) => strs_of(orig) == Some(bytes_model(out@) + t),
                None => strs_of(orig) is None,
            },
        decreases rem.len(),
    {
        let ghost prev = rem@;
        let v = rem.remove(0);
        proof {
            assert(rem@ =~= prev.drop_first());
            assert(jv_seq(prev).drop_first() =~= jv_seq(prev.drop_first()));
            assert(jv_seq(prev)[0] == v.jv());
        }
        match v {
            JsonValue::Str(c) => {
                let ghost co = out@;
                let ghost cv = c@;
                out.push(c);
                proof {
                    assert(bytes_model(out@) =~= bytes_model(co).push(cv));
                    match strs_of(jv_seq(rem@)) {
                        Some(t) => {
                            assert(strs_of(jv_seq(prev)) == Some(seq![cv] + t));
                            assert(bytes_model(co) + (seq![cv] + t) =~= bytes_model(co).push(cv)
                                + t);
                        },
                        None => {},
                    }
                }
            },
            JsonValue::Null => {
                return None;
            },
            JsonValue::Bool(_) => {
                return None;
            },
            JsonValue::Int(_) => {
                return None;
            },
            JsonValue::Arr(_) => {
                return None;
            },
            JsonValue::Obj(_) => {
                return None;
            },
        }
    }
    proof {
        assert(jv_seq(rem@) =~= Seq::<JVal>::empty());
        assert(bytes_model(out@) + Seq::<Seq<u8>>::empty() =~= bytes_model(out@));
    }
    Some(out)
}

/// Read one descriptor from its JSON form.
fn desc_from_json(v: JsonValue) -> (r: Option<HLAPIDeviceDescriptor>)
    ensures
        match r {
            Some(d) => desc_of_jv(v.jv()) == Some(d@),
            None => desc_of_jv(v.jv()) is None,
        },
{
    let ps = match v {
        JsonValue::Obj(ps) => ps,
        _ => {
            return None;
        },
    };
    proof {
        assert(k_device_id().len() == 8 && k_type_names().len() == 9);
    }
    let (idv, tnv) = split_two(ps, &k_device_id_v(), &k_type_names_v());
    let id = match idv {
        Some(JsonValue::Str(id)) => id,
        _ => {
            return None;
        },
    };
    let h = match HLAPIDeviceHandle::parse(id) {
        Some(h) => h,
        None => {
            return None;
        },
    };
    let es = match tnv {
        Some(JsonValue::Arr(es)) => es,
        _ => {
            return None;
        },
    };
    let cs = match strs_from(es) {
        Some(cs) => cs,
        None => {
            return None;
        },
    };
    if cs.len() == 0 {
        return None;
    }
    Some(HLAPIDeviceDescriptor { device_id: h, components: cs })
}

/// Read the elements of a descriptor array.
fn descs_from(es: Vec<JsonValue>) -> (r: Option<Vec<HLAPIDeviceDescriptor>>)
    ensures
        match r {
            Some(ds) => descs_of(jv_seq(es@)) == Some(descs_model(ds@)),
            None => descs_of(jv_seq(es@)) is None,
        },
{
    let ghost orig = jv_seq(es@);
    let mut rem = es;
    let mut out: Vec<HLAPIDeviceDescriptor> = Vec::new();
    while rem.len() > 0
        invariant
            orig == jv_seq(es@),
            match descs_of(jv_seq(rem@)) {
                Some(t) => descs_of(orig) == Some(descs_model(out@) + t),
                None => descs_of(orig) is None,
            },
        decreases rem.len(),
    {
        let ghost prev = rem@;
        let v = rem.remove(0);
        proof {
            assert(rem@ =~= prev.drop_first());
            assert(jv_seq(prev).drop_first() =~= jv_seq(prev.drop_first()));
            assert(jv_seq(prev)[0] == v.jv());
        }
        match desc_from_json(v) {
            Some(d) => {
                let ghost co = out@;
                let ghost dm = d@;
                out.push(d);
                proof {
                    assert(descs_model(out@) =~= descs_model(co).push(dm));
                    match descs_of(jv_seq(rem@)) {
                        Some(t) => {
                            assert(descs_of(jv_seq(prev)) == Some(seq![dm] + t));
                            assert(descs_model(co) + (seq![dm] + t) =~= descs_model(co).push(dm)
                                + t);
                        },
                        None => {},
                    }
                }
            },
            None => {
                return None;
            },
        }
    }
    proof {
        assert(jv_seq(rem@) =~= Seq::<JVal>::empty());
        assert(descs_model(out@) + Seq::<DescModel>::empty() =~= descs_model(out@));
    }
    Some(out)
}

/// Read one parameter record from its JSON form.
fn param_from_json(v: JsonValue) -> (r: Option<HLAPIType>)
    ensures
        match r {
            Some(t) => param_of_jv(v.jv()) == Some(t@),
            None => param_of_jv(v.jv()) is None,
        },
{
    let ps = match v {
        JsonValue::Obj(ps) => ps,
        _ => {
            return None;
        },
    };
    proof {
        assert(k_type()[0] == 116 && k_data()[0] == 100);
    }
    let (tv, _dv) = split_two(ps, &k_type_v(), &k_data_v());
    match tv {
        Some(JsonValue::Str(t)) => Some(HLAPIType::new(t)),
        _ => None,
    }
}

/// Read the elements of a parameter array.
fn params_from(es: Vec<JsonValue>) -> (r: Option<Vec<HLAPIType>>)
    ensures
        match r {
            Some(ts) => params_of(jv_seq(es@)) == Some(types_model(ts@)),
            None => params_of(jv_seq(es@)) is None,
        },
{
    let ghost orig = jv_seq(es@);
    let mut rem = es;
    let mut out: Vec<HLAPIType> = Vec::new();
    while rem.len() > 0
        invariant
            orig == jv_seq(es@),
            match params_of(jv_seq(rem@)) {
                Some(t) => params_of(orig) == Some(types_model(out@) + t),
                None => params_of(orig) is None,
            },
        decreases rem.len(),
    {
        let ghost prev = rem@;
        let v = rem.remove(0);
        proof {
            assert(rem@ =~= prev.drop_first());
            assert(jv_seq(prev).drop_first() =~= jv_seq(prev.drop_first()));
            assert(jv_seq(prev)[0] == v.jv());
        }
        match param_from_json(v) {
            Some(t) => {
                let ghost co = out@;
                let ghost tm = t@;
                out.push(t);
                proof {
                    assert(types_model(out@) =~= types_model(co).push(tm));
                    match params_of(jv_seq(rem@)) {
                        Some(t2) => {
                            assert(params_of(jv_seq(prev)) == Some(seq![tm] + t2));
                            assert(types_model(co) + (seq![tm] + t2) =~= types_model(co).push(tm)
                                + t2);
                        },
                        None => {},
                    }
                }
            },
            None => {
                return None;
            },
        }
    }
    proof {
        assert(jv_seq(rem@) =~= Seq::<JVal>::empty());
        assert(types_model(out@) + Seq::<Seq<u8>>::empty() =~= types_model(out@));
    }
    Some(out)
}

/// Read one optional string member.
fn opt_str_from(o: Option<JsonValue>) -> (r: Option<Option<Vec<u8>>>)
    ensures
        match r {
            Some(m) => opt_str_of(opt_jv(o)) == Some(opt_model(m)),
            None => opt_str_of(opt_jv(o)) is None,
        },
{
    match o {
        None => Some(None),
        Some(JsonValue::Null) => Some(None),
        Some(JsonValue::Str(c)) => Some(Some(c)),
        Some(_) => None,
    }
}

/// Read one method descriptor from its JSON form.
fn method_from_json(v: JsonValue) -> (r: Option<HLAPIMethod>)
    ensures
        match r {
            Some(m) => method_of_jv(v.jv()) == Some(m@),
            None => method_of_jv(v.jv()) is None,
        },
{
    let ps = match v {
        JsonValue::Obj(ps) => ps,
        _ => {
            return None;
        },
    };
    let (nv, pv, rv, dv, vv) = split_method(ps);
    let name = match nv {
        Some(JsonValue::Str(nm)) => nm,
        _ => {
            return None;
        },
    };
    let parameters = match pv {
        None => Vec::new(),
        Some(JsonValue::Arr(es)) => match params_from(es) {
            Some(ts) => ts,
            None => {
                return None;
            },
        },
        Some(_) => {
            return None;
        },
    };
    let return_type = match rv {
        Some(JsonValue::Str(t)) => t,
        _ => {
            return None;
        },
    };
    let description = match opt_str_from(dv) {
        Some(d) => d,
        None => {
            return None;
        },
    };
    let return_value_description = match opt_str_from(vv) {
        Some(d) => d,
        None => {
            return None;
        },
    };
    proof {
        assert(types_model(Seq::<HLAPIType>::empty()) =~= Seq::<Seq<u8>>::empty());
    }
    Some(HLAPIMethod { name, parameters, return_type, description, return_value_description })
}

/// Read the elements of a method array.
fn methods_from(es: Vec<JsonValue>) -> (r: Option<Vec<HLAPIMethod>>)
    ensures
        match r {
            Some(ms) => methods_of(jv_seq(es@)) == Some(methods_model(ms@)),
            None => methods_of(jv_seq(es@)) is None,
        },
{
    let ghost orig = jv_seq(es@);
    let mut rem = es;
    let mut out: Vec<HLAPIMethod> = Vec::new();
    while rem.len() > 0
        invariant
            orig == jv_seq(es@),
            match methods_of(jv_seq(rem@)) {
                Some(t) => methods_of(orig) == Some(methods_model(out@) + t),
                None => methods_of(orig) is None,
            },
        decreases rem.len(),
    {
        let ghost prev = rem@;
        let v = rem.remove(0);
        proof {
            assert(rem@ =~= prev.drop_first());
            assert(jv_seq(prev).drop_first() =~= jv_seq(prev.drop_first()));
            assert(jv_seq(prev)[0] == v.jv());
        }
        match method_from_json(v) {
            Some(m) => {
                let ghost co = out@;
                let ghost mm = m@;
                out.push(m);
                proof {
                    assert(methods_model(out@) =~= methods_model(co).push(mm));
                    match methods_of(jv_seq(rem@)) {
                        Some(t) => {
                            assert(methods_of(jv_seq(prev)) == Some(seq![mm] + t));
                            assert(methods_model(co) + (seq![mm] + t) =~= methods_model(co).push(
                                mm,
                            ) + t);
                        },
                        None => {},
                    }
                }
            },
            None => {
                return None;
            },
        }
    }
    proof {
        assert(jv_seq(rem@) =~= Seq::<JVal>::empty());
        assert(methods_model(out@) + Seq::<MethodModel>::empty() =~= methods_model(out@));
    }
    Some(out)
}

/// Read one inbound envelope from its JSON form.
fn recv_from_json(v: JsonValue) -> (r: Option<HLAPIReceive>)
    ensures
        match r {
            Some(rec) => recv_of_jv(v.jv()) == Some(rec@),
            None => recv_of_jv(v.jv()) is None,
        },
{
    let ps = match v {
        JsonValue::Obj(ps) => ps,
        _ => {
            return None;
        },
    };
    proof {
        assert(k_type()[0] == 116 && k_data()[0] == 100);
    }
    let (tv, dv) = split_two(ps, &k_type_v(), &k_data_v());
    let tag = match tv {
        Some(JsonValue::Str(tag)) => tag,
        _ => {
            return None;
        },
    };
    if eq_bytes(&tag, &t_list_v()) {
        match dv {
            Some(JsonValue::Arr(es)) => match descs_from(es) {
                Some(ds) => Some(HLAPIReceive::List(ds)),
                None => None,
            },
            _ => None,
        }
    } else if eq_bytes(&tag, &t_methods_v()) {
        match dv {
            Some(JsonValue::Arr(es)) => match methods_from(es) {
                Some(ms) => Some(HLAPIReceive::Methods(ms)),
                None => None,
            },
            _ => None,
        }
    } else if eq_bytes(&tag, &t_error_v()) {
        match opt_str_from(dv) {
            Some(msg) => Some(HLAPIReceive::Error(msg)),
            None => None,
        }
    } else if eq_bytes(&tag, &t_result_v()) {
        match dv {
            Some(d) => Some(HLAPIReceive::Result(d)),
            None => Some(HLAPIReceive::Result(JsonValue::Null)),
        }
    } else {
        None
    }
}

/// Decode one staged inbound frame into a typed envelope: exactly
/// `spec_decode_receive`.
pub fn decode_receive(buf: &Vec<u8>) -> (r: Result<HLAPIReceive, HLAPIError>)
    ensures
        match r {
            Ok(rec) => spec_decode_receive(buf@) == Ok::<RecvModel, HLAPIError>(rec@),
            Err(e) => spec_decode_receive(buf@) == Err::<RecvModel, HLAPIError>(e),
        },
{
    match decode_frame(buf) {
        Ok(v) => match recv_from_json(v) {
            Some(rec) => Ok(rec),
            None => Err(HLAPIError::InvalidData),
        },
        Err(e) => Err(e),
    }
}

/// Decode the response to a `list` request: only a `list` envelope is
/// acceptable; any other well-formed envelope, a well-formed `error`
/// included, fails with `InvalidData`.
pub fn decode_list(buf: &Vec<u8>) -> (r: Result<Vec<HLAPIDeviceDescriptor>, HLAPIError>)
    ensures
        match r {
            Ok(ds) => spec_decode_receive(buf@) == Ok::<RecvModel, HLAPIError>(
                RecvModel::List(descs_model(ds@)),
            ),
            Err(e) => match spec_decode_receive(buf@) {
                Ok(m) => e == HLAPIError::InvalidData && !(m is List),
                Err(e2) => e == e2,
            },
        },
{
    match decode_receive(buf) {
        Ok(HLAPIReceive::List(ds)) => Ok(ds),
        Ok(_) => Err(HLAPIError::InvalidData),
        Err(e) => Err(e),
    }
}

/// Decode the response to a `methods` request: only a `methods` envelope is
/// acceptable.
pub fn decode_methods(buf: &Vec<u8>) -> (r: Result<Vec<HLAPIMethod>, HLAPIError>)
    ensures
        match r {
            Ok(ms) => spec_decode_receive(buf@) == Ok::<RecvModel, HLAPIError>(
                RecvModel::Methods(methods_model(ms@)),
            ),
            Err(e) => match spec_decode_receive(buf@) {
                Ok(m) => e == HLAPIError::InvalidData && !(m is Methods),
                Err(e2) => e == e2,
            },
        },
{
    match decode_receive(buf) {
        Ok(HLAPIReceive::Methods(ms)) => Ok(ms),
        Ok(_) => Err(HLAPIError::InvalidData),
        Err(e) => Err(e),
    }
}

/// Decode the response to an `invoke` request: only a `result` envelope is
/// acceptable.
pub fn decode_result(buf: &Vec<u8>) -> (r: Result<JsonValue, HLAPIError>)
    ensures
        match r {
            Ok(v) => spec_decode_receive(buf@) == Ok::<RecvModel, HLAPIError>(
                RecvModel::Result(v.jv()),
            ),
            Err(e) => match spec_decode_receive(buf@) {
                Ok(m) => e == HLAPIError::InvalidData && !(m is Result),
                Err(e2) => e == e2,
            },
        },
{
    match decode_receive(buf) {
        Ok(HLAPIReceive::Result(v)) => Ok(v),
        Ok(_) => Err(HLAPIError::InvalidData),
        Err(e) => Err(e),
    }
}

} // verus!
