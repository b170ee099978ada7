//! Cross-checks of the crate's codec against serde_json: what the crate
//! emits must be plain JSON with the agreed member names and literals, and
//! what serde_json emits for the same shape must decode.

use chat_core::codec::decode_envelope;
use chat_core::codec::encode_chat_message;
use chat_core::codec::encode_envelope;
use chat_core::protocol::ChatMessage;
use chat_core::protocol::Envelope;

#[test]
fn encoded_envelope_is_valid_json_with_the_agreed_members() {
    let env = Envelope {
        message_type: "users".to_string(),
        data: None,
        data_array: Some(vec!["a\"x".to_string(), "b".to_string()]),
    };
    let text = encode_envelope(&env);
    let v: serde_json::Value = serde_json::from_str(&text).expect("frame is valid JSON");
    assert_eq!(v["messageType"], serde_json::Value::String("users".to_string()));
    assert!(v["data"].is_null());
    let arr = v["dataArray"].as_array().expect("array member");
    assert_eq!(arr.len(), 2);
    assert_eq!(arr[0], serde_json::Value::String("a\"x".to_string()));
    assert_eq!(arr[1], serde_json::Value::String("b".to_string()));
}

#[test]
fn encoded_chat_payload_is_valid_json() {
    let m = ChatMessage {
        from: "a\\b".to_string(),
        message: "line\nbreak\tand \"quotes\"".to_string(),
    };
    let text = encode_chat_message(&m);
    let v: serde_json::Value = serde_json::from_str(&text).expect("payload is valid JSON");
    assert_eq!(v["from"].as_str(), Some("a\\b"));
    assert_eq!(v["message"].as_str(), Some("line\nbreak\tand \"quotes\""));
}

#[test]
fn control_characters_cross_check_with_serde() {
    // Outbound: text with control characters must still be valid JSON.
    let m = ChatMessage {
        from: "bell\u{0007}".to_string(),
        message: "tab\there\u{0008}and\u{001f}\u{000c}".to_string(),
    };
    let text = encode_chat_message(&m);
    let v: serde_json::Value = serde_json::from_str(&text).expect("control chars escaped");
    assert_eq!(v["from"].as_str(), Some("bell\u{0007}"));
    assert_eq!(
        v["message"].as_str(),
        Some("tab\there\u{0008}and\u{001f}\u{000c}")
    );

    // Inbound: what serde emits for the same values must decode.
    let mut map = serde_json::Map::new();
    map.insert(
        "messageType".to_string(),
        serde_json::Value::String("ping\u{0007}\u{1F600}".to_string()),
    );
    let frame = serde_json::Value::Object(map).to_string();
    let env = decode_envelope(&frame).expect("serde-escaped text decodes");
    assert_eq!(env.message_type, "ping\u{0007}\u{1F600}");
}

#[test]
fn serde_emitted_frames_decode() {
    let mut map = serde_json::Map::new();
    map.insert(
        "messageType".to_string(),
        serde_json::Value::String("users".to_string()),
    );
    map.insert(
        "dataArray".to_string(),
        serde_json::Value::Array(vec![
            serde_json::Value::String("ann".to_string()),
            serde_json::Value::String("bo\"b".to_string()),
        ]),
    );
    map.insert("data".to_string(), serde_json::Value::Null);
    let text = serde_json::Value::Object(map).to_string();
    let env = decode_envelope(&text).expect("serde output decodes");
    assert_eq!(env.message_type, "users");
    assert!(env.data.is_none());
    assert_eq!(
        env.data_array,
        Some(vec!["ann".to_string(), "bo\"b".to_string()])
    );
}

#[test]
fn serde_pretty_printed_frames_decode() {
    let mut map = serde_json::Map::new();
    map.insert(
        "messageType".to_string(),
        serde_json::Value::String("register".to_string()),
    );
    map.insert(
        "data".to_string(),
        serde_json::Value::String("alice".to_string()),
    );
    let text = serde_json::to_string_pretty(&serde_json::Value::Object(map)).expect("pretty");
    let env = decode_envelope(&text).expect("pretty output decodes");
    assert_eq!(env.message_type, "register");
    assert_eq!(env.data.as_deref(), Some("alice"));
}
