use chat_core::codec::decode_chat_message;
use chat_core::codec::decode_envelope;
use chat_core::codec::encode_chat_message;
use chat_core::codec::encode_envelope;
use chat_core::protocol::ChatMessage;
use chat_core::protocol::Envelope;

#[test]
fn encoded_envelope_wire_form_is_exact() {
    let env = Envelope {
        message_type: "users".to_string(),
        data: None,
        data_array: Some(vec!["a".to_string(), "b".to_string()]),
    };
    assert_eq!(
        encode_envelope(&env),
        "{\"messageType\":\"users\",\"dataArray\":[\"a\",\"b\"],\"data\":null}"
    );
}

#[test]
fn encoded_chat_payload_wire_form_is_exact() {
    let m = ChatMessage {
        from: "bob".to_string(),
        message: "hi".to_string(),
    };
    assert_eq!(encode_chat_message(&m), "{\"from\":\"bob\",\"message\":\"hi\"}");
}

#[test]
fn encoder_escapes_quotes_backslashes_and_control_chars() {
    let m = ChatMessage {
        from: "a\"b".to_string(),
        message: "c\\d\ne\tf\rg\u{0008}h\u{000c}i\u{0001}j\u{001f}k".to_string(),
    };
    let text = encode_chat_message(&m);
    assert_eq!(
        text,
        "{\"from\":\"a\\\"b\",\"message\":\"c\\\\d\\ne\\tf\\rg\\bh\\fi\\u0001j\\u001fk\"}"
    );
    let back = decode_chat_message(&text).expect("round trip");
    assert_eq!(back.from, "a\"b");
    assert_eq!(back.message, "c\\d\ne\tf\rg\u{0008}h\u{000c}i\u{0001}j\u{001f}k");
}

#[test]
fn decoder_handles_unicode_escapes() {
    let env = decode_envelope(
        "{\"messageType\":\"message\",\"data\":\"\\u0041 \\u00e9 \\u00C9 \\u4e16\"}",
    )
    .expect("unicode escapes understood");
    assert_eq!(env.data.as_deref(), Some("A \u{00e9} \u{00c9} \u{4e16}"));
}

#[test]
fn decoder_handles_surrogate_pairs() {
    let env = decode_envelope("{\"messageType\":\"message\",\"data\":\"\\uD83D\\uDE00!\"}")
        .expect("surrogate pair understood");
    assert_eq!(env.data.as_deref(), Some("\u{1F600}!"));
}

#[test]
fn decoder_rejects_bad_unicode_escapes() {
    // A lone high surrogate, at the end of the string and mid-string.
    assert!(decode_envelope("{\"messageType\":\"\\uD83D\"}").is_none());
    assert!(decode_envelope("{\"messageType\":\"\\uD83Dx\"}").is_none());
    // A lone low surrogate.
    assert!(decode_envelope("{\"messageType\":\"\\uDE00\"}").is_none());
    // Too few digits, and a digit that is not hexadecimal.
    assert!(decode_envelope("{\"messageType\":\"\\u12\"}").is_none());
    assert!(decode_envelope("{\"messageType\":\"\\u12G4\"}").is_none());
}

#[test]
fn envelope_round_trips_through_the_codec() {
    let env = Envelope {
        message_type: "message".to_string(),
        data: Some("{\"from\":\"x\",\"message\":\"y\"}".to_string()),
        data_array: None,
    };
    let text = encode_envelope(&env);
    let back = decode_envelope(&text).expect("round trip");
    assert_eq!(back.message_type, "message");
    assert_eq!(back.data.as_deref(), Some("{\"from\":\"x\",\"message\":\"y\"}"));
    assert!(back.data_array.is_none());
}

#[test]
fn decoder_accepts_whitespace_between_tokens() {
    let env = decode_envelope(
        " {\n  \"messageType\" : \"ping\" ,\n  \"data\" : null ,\n  \"dataArray\" : [ \"a\" , \"b\" ]\n} ",
    )
    .expect("whitespace tolerated");
    assert_eq!(env.message_type, "ping");
    assert!(env.data.is_none());
    assert_eq!(env.data_array, Some(vec!["a".to_string(), "b".to_string()]));
}

#[test]
fn decoder_accepts_members_in_any_order() {
    let env = decode_envelope(
        "{\"data\":\"alice\",\"messageType\":\"register\",\"dataArray\":null}",
    )
    .expect("any member order");
    assert_eq!(env.message_type, "register");
    assert_eq!(env.data.as_deref(), Some("alice"));
}

#[test]
fn decoder_accepts_absent_optional_members() {
    let env = decode_envelope("{\"messageType\":\"ping\"}").expect("optional members absent");
    assert_eq!(env.message_type, "ping");
    assert!(env.data.is_none());
    assert!(env.data_array.is_none());
}

#[test]
fn decoder_accepts_empty_array() {
    let env = decode_envelope("{\"messageType\":\"users\",\"dataArray\":[]}").expect("empty array");
    assert_eq!(env.data_array, Some(Vec::new()));
}

#[test]
fn decoder_handles_escape_sequences() {
    let env = decode_envelope(
        "{\"messageType\":\"message\",\"data\":\"a\\\"b\\\\c\\/d\\ne\\tf\\rg\\bh\\fi\"}",
    )
    .expect("escapes understood");
    assert_eq!(
        env.data.as_deref(),
        Some("a\"b\\c/d\ne\tf\rg\u{0008}h\u{000c}i")
    );
}

#[test]
fn decoder_rejects_what_is_not_an_envelope() {
    assert!(decode_envelope("").is_none());
    assert!(decode_envelope("{not json").is_none());
    assert!(decode_envelope("[\"messageType\"]").is_none());
    // The required member is missing.
    assert!(decode_envelope("{\"data\":\"x\"}").is_none());
    // A member the protocol does not know.
    assert!(decode_envelope("{\"messageType\":\"ping\",\"extra\":\"x\"}").is_none());
    // A repeated member.
    assert!(decode_envelope("{\"messageType\":\"a\",\"messageType\":\"b\"}").is_none());
    // A value of the wrong shape for its member.
    assert!(decode_envelope("{\"messageType\":null}").is_none());
    assert!(decode_envelope("{\"messageType\":\"users\",\"dataArray\":7}").is_none());
    assert!(decode_envelope("{\"messageType\":\"users\",\"dataArray\":[7]}").is_none());
    // Text after the closing brace.
    assert!(decode_envelope("{\"messageType\":\"ping\"}x").is_none());
    // An unterminated string.
    assert!(decode_envelope("{\"messageType\":\"pi").is_none());
    // An escape the grammar does not know.
    assert!(decode_envelope("{\"messageType\":\"a\\qb\"}").is_none());
}

#[test]
fn decoder_rejects_malformed_chat_payloads() {
    assert!(decode_chat_message("").is_none());
    assert!(decode_chat_message("hello").is_none());
    assert!(decode_chat_message("{\"from\":\"a\"}").is_none());
    assert!(decode_chat_message("{\"message\":\"a\"}").is_none());
    assert!(decode_chat_message("{\"from\":\"a\",\"message\":null}").is_none());
    assert!(decode_chat_message("{\"from\":\"a\",\"message\":\"b\",\"more\":\"c\"}").is_none());
}

#[test]
fn chat_payload_accepts_any_member_order_and_whitespace() {
    let m = decode_chat_message(" { \"message\" : \"hi\" , \"from\" : \"bob\" } ")
        .expect("payload decodes");
    assert_eq!(m.from, "bob");
    assert_eq!(m.message, "hi");
}
