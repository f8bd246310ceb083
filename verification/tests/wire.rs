// Cross-checks against a mainstream JSON implementation: what this crate
// writes is real JSON with the expected structure, and what a mainstream
// serializer writes (member order and whitespace included) decodes here.

use hlapi::codec::{decode_list, encode_send};
use hlapi::{HLAPIDeviceHandle, HLAPISend, JsonValue};
use serde_json::Value;

const HANDLE_A: &str = "11111111-2222-3333-4444-555555555555";

fn handle(text: &str) -> HLAPIDeviceHandle {
    HLAPIDeviceHandle::parse(text.as_bytes().to_vec()).expect("canonical handle text")
}

#[test]
fn encoded_invoke_is_real_json() {
    let bytes = encode_send(HLAPISend::Invoke {
        device_id: handle(HANDLE_A),
        method_name: b"se\"nd\n".to_vec(),
        parameters: vec![JsonValue::Int(-12), JsonValue::Str(b"a\\b".to_vec())],
    })
    .unwrap();
    assert_eq!(bytes[0], 0);
    assert_eq!(bytes[bytes.len() - 1], 0);
    let parsed: Value = serde_json::from_slice(&bytes[1..bytes.len() - 1]).unwrap();
    assert_eq!(parsed["type"], Value::from("invoke"));
    assert_eq!(parsed["data"]["deviceId"], Value::from(HANDLE_A));
    assert_eq!(parsed["data"]["name"], Value::from("se\"nd\n"));
    assert_eq!(parsed["data"]["parameters"][0], Value::from(-12));
    assert_eq!(parsed["data"]["parameters"][1], Value::from("a\\b"));
}

#[test]
fn serde_written_list_response_decodes_here() {
    let mut desc = serde_json::Map::new();
    desc.insert("deviceId".to_string(), Value::from(HANDLE_A));
    desc.insert(
        "typeNames".to_string(),
        Value::from(vec![Value::from("energy_device")]),
    );
    let mut envelope = serde_json::Map::new();
    envelope.insert("type".to_string(), Value::from("list"));
    envelope.insert("data".to_string(), Value::from(vec![Value::Object(desc)]));
    let text = serde_json::to_string_pretty(&Value::Object(envelope)).unwrap();

    let mut buf = vec![0u8];
    buf.extend_from_slice(text.as_bytes());
    buf.push(0);

    let ds = decode_list(&buf).unwrap();
    assert_eq!(ds.len(), 1);
    assert_eq!(ds[0].device_id, handle(HANDLE_A));
    assert_eq!(ds[0].components, vec![b"energy_device".to_vec()]);
}
