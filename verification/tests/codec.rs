use hlapi::codec::{decode_list, decode_methods, decode_result, encode_send};
use hlapi::frame::{decode_frame, encode_frame, frame_end, reset_frame, MAX_WRITE};
use hlapi::types::{eq_bytes, find_device, HLAPIDeviceDescriptor, HLAPIDeviceHandle};
use hlapi::{HLAPIError, HLAPIReceive, HLAPISend, JsonValue};

fn handle(text: &str) -> HLAPIDeviceHandle {
    HLAPIDeviceHandle::parse(text.as_bytes().to_vec()).expect("canonical handle text")
}

fn frame(payload: &str) -> Vec<u8> {
    let mut buf = vec![0u8];
    buf.extend_from_slice(payload.as_bytes());
    buf.push(0);
    buf
}

const HANDLE_A: &str = "11111111-2222-3333-4444-555555555555";
const HANDLE_B: &str = "aaaaaaaa-bbbb-cccc-dddd-eeeeffff0000";

#[test]
fn encode_list_exact_bytes() {
    let bytes = encode_send(HLAPISend::List).unwrap();
    assert_eq!(bytes, frame("{\"type\":\"list\"}"));
}

#[test]
fn encode_methods_exact_bytes() {
    let bytes = encode_send(HLAPISend::Methods(handle(HANDLE_A))).unwrap();
    let expected = format!("{{\"type\":\"methods\",\"data\":\"{}\"}}", HANDLE_A);
    assert_eq!(bytes, frame(&expected));
}

#[test]
fn encode_invoke_exact_bytes() {
    let bytes = encode_send(HLAPISend::Invoke {
        device_id: handle(HANDLE_A),
        method_name: b"setEnergy".to_vec(),
        parameters: vec![JsonValue::Int(42), JsonValue::Bool(true)],
    })
    .unwrap();
    let expected = format!(
        "{{\"type\":\"invoke\",\"data\":{{\"deviceId\":\"{}\",\"name\":\"setEnergy\",\"parameters\":[42,true]}}}}",
        HANDLE_A
    );
    assert_eq!(bytes, frame(&expected));
}

#[test]
fn round_trip_invoke_envelope() {
    let bytes = encode_send(HLAPISend::Invoke {
        device_id: handle(HANDLE_A),
        method_name: b"greet".to_vec(),
        parameters: vec![
            JsonValue::Str(b"hi \"there\"\\\n".to_vec()),
            JsonValue::Int(-7),
            JsonValue::Null,
        ],
    })
    .unwrap();
    let value = decode_frame(&bytes).unwrap();
    let expected = JsonValue::Obj(vec![
        (b"type".to_vec(), JsonValue::Str(b"invoke".to_vec())),
        (
            b"data".to_vec(),
            JsonValue::Obj(vec![
                (b"deviceId".to_vec(), JsonValue::Str(HANDLE_A.as_bytes().to_vec())),
                (b"name".to_vec(), JsonValue::Str(b"greet".to_vec())),
                (
                    b"parameters".to_vec(),
                    JsonValue::Arr(vec![
                        JsonValue::Str(b"hi \"there\"\\\n".to_vec()),
                        JsonValue::Int(-7),
                        JsonValue::Null,
                    ]),
                ),
            ]),
        ),
    ]);
    assert_eq!(value, expected);
}

#[test]
fn missing_leading_delimiter_is_unexpected_eof() {
    let bytes = encode_send(HLAPISend::List).unwrap();
    let broken = bytes[1..].to_vec();
    assert_eq!(decode_frame(&broken), Err(HLAPIError::UnexpectedEof));
}

#[test]
fn missing_trailing_delimiter_is_unexpected_eof() {
    let bytes = encode_send(HLAPISend::List).unwrap();
    let broken = bytes[..bytes.len() - 1].to_vec();
    assert_eq!(decode_frame(&broken), Err(HLAPIError::UnexpectedEof));
}

#[test]
fn empty_buffer_is_unexpected_eof() {
    assert_eq!(decode_frame(&Vec::new()), Err(HLAPIError::UnexpectedEof));
}

#[test]
fn garbage_payload_is_invalid_data() {
    let buf = frame("not json at all!");
    assert_eq!(decode_frame(&buf), Err(HLAPIError::InvalidData));
}

#[test]
fn oversized_invoke_is_payload_too_large() {
    let bytes = encode_send(HLAPISend::Invoke {
        device_id: handle(HANDLE_A),
        method_name: b"write".to_vec(),
        parameters: vec![JsonValue::Str(vec![b'x'; 5000])],
    });
    assert_eq!(bytes, Err(HLAPIError::PayloadTooLarge));
}

#[test]
fn frame_at_the_cap_is_accepted() {
    let payload = vec![b'x'; MAX_WRITE - 2];
    let framed = encode_frame(payload.clone()).unwrap();
    assert_eq!(framed.len(), MAX_WRITE);
    assert_eq!(&framed[1..framed.len() - 1], payload.as_slice());
}

#[test]
fn frame_over_the_cap_is_payload_too_large() {
    let payload = vec![b'x'; MAX_WRITE - 1];
    assert_eq!(encode_frame(payload), Err(HLAPIError::PayloadTooLarge));
}

#[test]
fn list_response_decodes_descriptors() {
    let buf = frame(&format!(
        " {{ \"data\": [ {{\"typeNames\": [\"redstone\", \"colored\"], \"deviceId\": \"{}\"}} ], \"type\": \"list\" }}",
        HANDLE_B
    ));
    let ds = decode_list(&buf).unwrap();
    assert_eq!(ds.len(), 1);
    assert_eq!(ds[0].device_id, handle(HANDLE_B));
    assert_eq!(ds[0].components, vec![b"redstone".to_vec(), b"colored".to_vec()]);
}

#[test]
fn list_with_empty_components_is_invalid_data() {
    let buf = frame(&format!(
        "{{\"type\":\"list\",\"data\":[{{\"deviceId\":\"{}\",\"typeNames\":[]}}]}}",
        HANDLE_A
    ));
    assert_eq!(decode_list(&buf), Err(HLAPIError::InvalidData));
}

#[test]
fn list_with_malformed_handle_is_invalid_data() {
    let buf = frame(
        "{\"type\":\"list\",\"data\":[{\"deviceId\":\"not-a-handle\",\"typeNames\":[\"x\"]}]}",
    );
    assert_eq!(decode_list(&buf), Err(HLAPIError::InvalidData));
}

#[test]
fn list_call_receiving_error_envelope_is_invalid_data() {
    let buf = frame("{\"type\":\"error\",\"data\":\"boom\"}");
    assert_eq!(decode_list(&buf), Err(HLAPIError::InvalidData));
}

#[test]
fn error_envelope_decodes_as_error_variant() {
    let buf = frame("{\"type\":\"error\",\"data\":\"boom\"}");
    let rec = hlapi::codec::decode_receive(&buf).unwrap();
    assert_eq!(rec, HLAPIReceive::Error(Some(b"boom".to_vec())));
}

#[test]
fn error_envelope_with_null_message() {
    let buf = frame("{\"type\":\"error\",\"data\":null}");
    let rec = hlapi::codec::decode_receive(&buf).unwrap();
    assert_eq!(rec, HLAPIReceive::Error(None));
}

#[test]
fn methods_response_decodes_descriptors() {
    let buf = frame(
        "{\"type\":\"methods\",\"data\":[\
         {\"name\":\"getEnergyStored\",\"returnType\":\"int\"},\
         {\"name\":\"send\",\"parameters\":[{\"type\":\"String\"},{\"type\":\"int\"}],\
          \"returnType\":\"void\",\"description\":\"sends data\",\
          \"returnValueDescription\":null}]}",
    );
    let ms = decode_methods(&buf).unwrap();
    assert_eq!(ms.len(), 2);
    assert_eq!(ms[0].name, b"getEnergyStored".to_vec());
    assert!(ms[0].parameters.is_empty());
    assert_eq!(ms[0].return_type, b"int".to_vec());
    assert_eq!(ms[0].description, None);
    assert_eq!(ms[0].return_value_description, None);
    assert_eq!(ms[1].name, b"send".to_vec());
    assert_eq!(ms[1].parameters.len(), 2);
    assert_eq!(ms[1].parameters[0].data(), &b"String".to_vec());
    assert_eq!(ms[1].parameters[1].data(), &b"int".to_vec());
    assert_eq!(ms[1].description, Some(b"sends data".to_vec()));
    assert_eq!(ms[1].return_value_description, None);
}

#[test]
fn result_envelope_decodes_payload() {
    let buf = frame("{\"type\":\"result\",\"data\":[\"ok\",3]}");
    let v = decode_result(&buf).unwrap();
    assert_eq!(
        v,
        JsonValue::Arr(vec![JsonValue::Str(b"ok".to_vec()), JsonValue::Int(3)])
    );
}

#[test]
fn result_envelope_without_data_is_null() {
    let buf = frame("{\"type\":\"result\"}");
    assert_eq!(decode_result(&buf), Ok(JsonValue::Null));
}

#[test]
fn expect_result_keeps_only_result() {
    let ok = HLAPIReceive::Result(JsonValue::Int(5));
    assert_eq!(ok.expect_result(), Some(JsonValue::Int(5)));
    let err = HLAPIReceive::Error(Some(b"boom".to_vec()));
    assert_eq!(err.expect_result(), None);
}

#[test]
fn find_tie_break_first_match_wins() {
    let ds = vec![
        HLAPIDeviceDescriptor {
            device_id: handle(HANDLE_A),
            components: vec![b"x".to_vec()],
        },
        HLAPIDeviceDescriptor {
            device_id: handle(HANDLE_B),
            components: vec![b"x".to_vec(), b"y".to_vec()],
        },
    ];
    let found = find_device(&ds, &b"x".to_vec()).unwrap();
    assert_eq!(found, handle(HANDLE_A));
}

#[test]
fn find_missing_component_is_not_found() {
    let ds = vec![HLAPIDeviceDescriptor {
        device_id: handle(HANDLE_A),
        components: vec![b"x".to_vec()],
    }];
    assert_eq!(find_device(&ds, &b"z".to_vec()), Err(HLAPIError::NotFound));
}

#[test]
fn reset_frame_is_one_delimiter() {
    assert_eq!(reset_frame(), vec![0u8]);
}

#[test]
fn frame_end_finds_the_boundary() {
    let buf = frame("{\"type\":\"list\"}");
    assert_eq!(frame_end(&buf), Some(buf.len()));
    let partial = &buf[..buf.len() - 1];
    assert_eq!(frame_end(&partial.to_vec()), None);
}

#[test]
fn numbers_round_trip_and_floats_are_rejected() {
    let buf = frame("{\"type\":\"result\",\"data\":[-9223372036854775808,9223372036854775807]}");
    let v = decode_result(&buf).unwrap();
    assert_eq!(
        v,
        JsonValue::Arr(vec![JsonValue::Int(i64::MIN), JsonValue::Int(i64::MAX)])
    );
    let fractional = frame("{\"type\":\"result\",\"data\":1.5}");
    assert_eq!(decode_result(&fractional), Err(HLAPIError::InvalidData));
    let huge = frame("{\"type\":\"result\",\"data\":99999999999999999999999}");
    assert_eq!(decode_result(&huge), Err(HLAPIError::InvalidData));
}

#[test]
fn string_escapes_decode() {
    let buf = frame("{\"type\":\"result\",\"data\":\"a\\\"b\\\\c\\n\\u0001\"}");
    let v = decode_result(&buf).unwrap();
    assert_eq!(
        v,
        JsonValue::Str(vec![b'a', b'"', b'b', b'\\', b'c', b'\n', 1])
    );
}

#[test]
fn handle_text_is_validated() {
    assert!(HLAPIDeviceHandle::parse(HANDLE_A.as_bytes().to_vec()).is_some());
    assert!(HLAPIDeviceHandle::parse(b"11111111-2222-3333-4444-55555555555".to_vec()).is_none());
    assert!(HLAPIDeviceHandle::parse(b"11111111x2222-3333-4444-555555555555".to_vec()).is_none());
    assert!(HLAPIDeviceHandle::parse(b"1111111g-2222-3333-4444-555555555555".to_vec()).is_none());
}

#[test]
fn eq_bytes_compares_contents() {
    assert!(eq_bytes(&b"abc".to_vec(), &b"abc".to_vec()));
    assert!(!eq_bytes(&b"abc".to_vec(), &b"abd".to_vec()));
    assert!(!eq_bytes(&b"abc".to_vec(), &b"ab".to_vec()));
}
