use hlapi::codec::decode_result;
use hlapi::frame::encode_frame;
use hlapi::ser::write_json;
use hlapi::stream::StreamDecoder;
use hlapi::{HLAPIError, JsonValue};

fn frame(payload: &str) -> Vec<u8> {
    let mut buf = vec![0u8];
    buf.extend_from_slice(payload.as_bytes());
    buf.push(0);
    buf
}

fn pull_all(buf: Vec<u8>) -> Result<Vec<JsonValue>, HLAPIError> {
    let mut dec = StreamDecoder::new(buf)?;
    let mut out = Vec::new();
    loop {
        match dec.next_item()? {
            Some(v) => out.push(v),
            None => return Ok(out),
        }
    }
}

#[test]
fn streaming_null_yields_zero_elements() {
    let items = pull_all(frame("null")).unwrap();
    assert!(items.is_empty());
}

#[test]
fn streaming_empty_array_yields_zero_elements() {
    let items = pull_all(frame("[]")).unwrap();
    assert!(items.is_empty());
}

#[test]
fn streaming_one_element() {
    let items = pull_all(frame("[\"only\"]")).unwrap();
    assert_eq!(items, vec![JsonValue::Str(b"only".to_vec())]);
}

#[test]
fn streaming_matches_aggregate_for_a_thousand_elements() {
    let values: Vec<JsonValue> = (0..1000).map(JsonValue::Int).collect();
    let mut payload = Vec::new();
    write_json(&JsonValue::Arr(values), &mut payload);
    let text = String::from_utf8(payload.clone()).unwrap();

    let streamed = pull_all(frame(&text)).unwrap();
    assert_eq!(streamed.len(), 1000);

    // aggregate decode of the same array, carried as a result payload
    let aggregate =
        decode_result(&frame(&format!("{{\"type\":\"result\",\"data\":{}}}", text))).unwrap();
    match aggregate {
        JsonValue::Arr(vs) => assert_eq!(streamed, vs),
        other => panic!("expected an array, got {:?}", other),
    }
}

#[test]
fn streaming_early_stop_leaves_rest_undecoded() {
    // the consumer gives up after the second element; exactly two were
    // delivered, and the malformed third element was never decoded
    let buf = frame("[1,2,%%%garbage");
    let mut dec = StreamDecoder::new(buf).unwrap();
    let mut delivered = Vec::new();
    for _ in 0..2 {
        match dec.next_item().unwrap() {
            Some(v) => delivered.push(v),
            None => panic!("stream ended early"),
        }
    }
    assert_eq!(delivered, vec![JsonValue::Int(1), JsonValue::Int(2)]);
    assert_eq!(dec.delivered_count(), 2);
}

#[test]
fn streaming_reports_malformed_element_when_reached() {
    let buf = frame("[1,2,%%%garbage]");
    let mut dec = StreamDecoder::new(buf).unwrap();
    assert_eq!(dec.next_item(), Ok(Some(JsonValue::Int(1))));
    assert_eq!(dec.next_item(), Ok(Some(JsonValue::Int(2))));
    assert_eq!(dec.next_item(), Err(HLAPIError::InvalidData));
    assert_eq!(dec.delivered_count(), 2);
}

#[test]
fn streaming_missing_lead_delimiter() {
    assert!(matches!(
        StreamDecoder::new(b"[1]\0".to_vec()),
        Err(HLAPIError::UnexpectedEof)
    ));
}

#[test]
fn streaming_missing_trail_delimiter() {
    let mut dec = StreamDecoder::new(b"\0[1]".to_vec()).unwrap();
    assert_eq!(dec.next_item(), Ok(Some(JsonValue::Int(1))));
    assert_eq!(dec.next_item(), Err(HLAPIError::UnexpectedEof));
}

#[test]
fn streaming_non_sequence_payload_is_invalid_data() {
    assert!(matches!(
        StreamDecoder::new(frame("\"just a string\"")),
        Err(HLAPIError::InvalidData)
    ));
}

#[test]
fn streaming_whitespace_between_elements() {
    let items = pull_all(frame("[ 1 ,\n2\t, 3 ]")).unwrap();
    assert_eq!(
        items,
        vec![JsonValue::Int(1), JsonValue::Int(2), JsonValue::Int(3)]
    );
}

#[test]
fn encoded_frame_has_both_delimiters() {
    let framed = encode_frame(b"null".to_vec()).unwrap();
    assert_eq!(framed, b"\0null\0".to_vec());
}
