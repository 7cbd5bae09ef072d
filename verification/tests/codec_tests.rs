use keepldr::codec::{decode, encode};
use keepldr::envelope::Workload;

fn wasm_magic() -> Vec<u8> {
    vec![0x00, 0x61, 0x73, 0x6d, 0x01, 0x00, 0x00, 0x00]
}

#[test]
fn round_trip_demo_envelope() {
    let w = Workload { human_readable_info: String::from("demo"), wasm_binary: wasm_magic() };
    let bytes = encode(&w);
    let back = decode(&bytes).expect("the canonical encoding must decode");
    assert_eq!(back.human_readable_info, "demo");
    assert_eq!(back.wasm_binary, wasm_magic());
}

#[test]
fn round_trip_empty_fields() {
    let w = Workload { human_readable_info: String::new(), wasm_binary: Vec::new() };
    let bytes = encode(&w);
    let back = decode(&bytes).expect("the canonical encoding must decode");
    assert_eq!(back.human_readable_info, "");
    assert!(back.wasm_binary.is_empty());
}

#[test]
fn round_trip_non_ascii_label() {
    let w = Workload { human_readable_info: String::from("dém0 ✓"), wasm_binary: vec![0xff, 0x00] };
    let bytes = encode(&w);
    let back = decode(&bytes).expect("the canonical encoding must decode");
    assert_eq!(back.human_readable_info, "dém0 ✓");
    assert_eq!(back.wasm_binary, vec![0xff, 0x00]);
}

#[test]
fn round_trip_large_payload() {
    let payload: Vec<u8> = (0..=255u8).cycle().take(70000).collect();
    let w = Workload { human_readable_info: String::from("big"), wasm_binary: payload.clone() };
    let bytes = encode(&w);
    let back = decode(&bytes).expect("the canonical encoding must decode");
    assert_eq!(back.wasm_binary, payload);
}

#[test]
fn decode_rejects_empty_input() {
    let e = decode(&Vec::new()).expect_err("empty input is not an envelope");
    assert_eq!(e.message(), "payload parsing problem");
}

#[test]
fn decode_rejects_truncated_input() {
    let w = Workload { human_readable_info: String::from("demo"), wasm_binary: wasm_magic() };
    let bytes = encode(&w);
    for cut in 0..bytes.len() {
        let truncated: Vec<u8> = bytes[..cut].to_vec();
        let e = decode(&truncated).expect_err("a truncated body is not an envelope");
        assert_eq!(e.message(), "payload parsing problem");
    }
}

#[test]
fn decode_rejects_trailing_bytes() {
    let w = Workload { human_readable_info: String::from("demo"), wasm_binary: wasm_magic() };
    let mut bytes = encode(&w);
    bytes.push(0x00);
    let e = decode(&bytes).expect_err("trailing bytes are not an envelope");
    assert_eq!(e.message(), "payload parsing problem");
}

#[test]
fn decode_rejects_wrong_toplevel_type() {
    // an array of two items instead of a map of two entries
    let bytes = vec![0x82u8, 0x01, 0x02];
    let e = decode(&bytes).expect_err("an array body is not an envelope");
    assert_eq!(e.message(), "payload parsing problem");
}

#[test]
fn decode_rejects_wrong_key() {
    let w = Workload { human_readable_info: String::from("x"), wasm_binary: vec![1] };
    let mut bytes = encode(&w);
    // corrupt the first key's first character
    bytes[2] = b'x';
    let e = decode(&bytes).expect_err("a wrong key is not an envelope");
    assert_eq!(e.message(), "payload parsing problem");
}

#[test]
fn decode_rejects_invalid_utf8_label() {
    let w = Workload { human_readable_info: String::from("a"), wasm_binary: vec![1] };
    let mut bytes = encode(&w);
    // the label's one content byte sits right after the map header, the
    // 19-byte key with its header, and the label's text header
    let label_at = 1 + 1 + 19 + 1;
    assert_eq!(bytes[label_at], b'a');
    bytes[label_at] = 0xff;
    let e = decode(&bytes).expect_err("invalid UTF-8 is not an envelope");
    assert_eq!(e.message(), "payload parsing problem");
}

#[test]
fn decode_rejects_non_shortest_length() {
    let w = Workload { human_readable_info: String::from("demo"), wasm_binary: vec![1] };
    let canonical = encode(&w);
    // re-express the first key's length 19 as a one-byte length field
    let mut padded: Vec<u8> = Vec::new();
    padded.push(canonical[0]);
    padded.push(0x78);
    padded.push(19);
    padded.extend_from_slice(&canonical[2..]);
    let e = decode(&padded).expect_err("a non-shortest length is rejected");
    assert_eq!(e.message(), "payload parsing problem");
}

#[test]
fn encode_produces_the_exact_canonical_bytes() {
    let w = Workload { human_readable_info: String::from("t"), wasm_binary: vec![0x00, 0x61] };
    let mut expected: Vec<u8> = Vec::new();
    expected.push(0xa2); // a map of two entries
    expected.push(0x73); // a text key of 19 bytes
    expected.extend_from_slice(b"human_readable_info");
    expected.push(0x61); // a text value of 1 byte
    expected.push(b't');
    expected.push(0x6b); // a text key of 11 bytes
    expected.extend_from_slice(b"wasm_binary");
    expected.push(0x82); // an array of two items
    expected.push(0x00); // the byte 0, immediate
    expected.push(0x18); // the byte 0x61, behind a one-byte header
    expected.push(0x61);
    assert_eq!(encode(&w), expected);
}

fn reference_value(info: &str, payload: &[u8]) -> serde_cbor::Value {
    let mut map = std::collections::BTreeMap::new();
    map.insert(
        serde_cbor::Value::Text(String::from("human_readable_info")),
        serde_cbor::Value::Text(String::from(info)),
    );
    map.insert(
        serde_cbor::Value::Text(String::from("wasm_binary")),
        serde_cbor::Value::Array(
            payload.iter().map(|b| serde_cbor::Value::Integer(*b as i128)).collect(),
        ),
    );
    serde_cbor::Value::Map(map)
}

#[test]
fn encode_parses_as_reference_cbor() {
    // the reference decoder must read the encoding back to the same fields
    let w = Workload { human_readable_info: String::from("demo"), wasm_binary: wasm_magic() };
    let mine = encode(&w);
    let parsed: serde_cbor::Value =
        serde_cbor::from_slice(&mine).expect("the encoding must be well-formed to the reference");
    assert_eq!(parsed, reference_value("demo", &wasm_magic()));
}

#[test]
fn decode_rejects_reordered_keys() {
    // the reference serialization of a value map orders keys shortest
    // first, putting the payload key ahead of the label key; that is a
    // second encoding of the same envelope, and the canonical decoder
    // rejects it
    let reference =
        serde_cbor::to_vec(&reference_value("t", &[0x00, 0x61])).expect("reference encoding");
    let e = decode(&reference).expect_err("a reordered map is rejected");
    assert_eq!(e.message(), "payload parsing problem");
}
