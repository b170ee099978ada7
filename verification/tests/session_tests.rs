use chat_core::broadcaster::Broadcaster;
use chat_core::codec::decode_envelope;
use chat_core::codec::encode_chat_message;
use chat_core::codec::encode_envelope;
use chat_core::protocol::avatar_url;
use chat_core::protocol::avatar_for;
use chat_core::protocol::ChatMessage;
use chat_core::protocol::Envelope;
use chat_core::session::Chat;
use chat_core::session::FrameOutcome;
use chat_core::session::Msg;
use chat_core::session::SessionState;
use chat_core::session::SubmitOutcome;
use chat_core::transport::Transport;

fn new_chat() -> Chat {
    let mut bus = Broadcaster::new();
    let mut chat = Chat::new("alice".to_string(), Transport::new(), &mut bus);
    // Leave only frames caused by the test in the outbound queue.
    chat.transport.take_outbound();
    chat
}

fn message_frame(from: &str, text: &str) -> String {
    let payload = encode_chat_message(&ChatMessage {
        from: from.to_string(),
        message: text.to_string(),
    });
    encode_envelope(&Envelope::message(payload))
}

#[test]
fn register_frame_on_create() {
    let mut bus = Broadcaster::new();
    let mut chat = Chat::new("alice".to_string(), Transport::new(), &mut bus);
    assert_eq!(chat.state, SessionState::Registered);
    assert!(chat.registered);
    let out = chat.transport.take_outbound();
    assert_eq!(out.len(), 1);
    assert_eq!(
        out[0],
        "{\"messageType\":\"register\",\"dataArray\":null,\"data\":\"alice\"}"
    );
}

#[test]
fn create_with_closed_channel_still_proceeds() {
    let mut bus = Broadcaster::new();
    let mut transport = Transport::new();
    transport.disconnect();
    let mut chat = Chat::new("alice".to_string(), transport, &mut bus);
    assert!(!chat.registered);
    assert_eq!(chat.state, SessionState::Connecting);
    let o = chat.on_frame("{\"messageType\":\"users\",\"dataArray\":[\"a\"],\"data\":null}");
    assert_eq!(o, FrameOutcome::RosterReplaced);
    assert_eq!(chat.state, SessionState::Active);
    assert_eq!(chat.transport.take_outbound().len(), 0);
}

#[test]
fn users_envelope_replaces_roster() {
    let mut chat = new_chat();
    let o = chat.on_frame(
        "{\"messageType\":\"users\",\"dataArray\":[\"a\",\"b\",\"c\"],\"data\":null}",
    );
    assert_eq!(o, FrameOutcome::RosterReplaced);
    assert_eq!(chat.roster.len(), 3);
    assert_eq!(chat.roster[0].name, "a");
    assert_eq!(chat.roster[1].name, "b");
    assert_eq!(chat.roster[2].name, "c");
    assert_eq!(
        chat.roster[0].avatar,
        "https://avatars.dicebear.com/api/adventurer-neutral/a.svg"
    );
}

#[test]
fn roster_replacement_is_total() {
    let mut chat = new_chat();
    chat.on_frame("{\"messageType\":\"users\",\"dataArray\":[\"a\",\"b\",\"c\"],\"data\":null}");
    let o = chat.on_frame("{\"messageType\":\"users\",\"dataArray\":[\"b\",\"d\"],\"data\":null}");
    assert_eq!(o, FrameOutcome::RosterReplaced);
    assert_eq!(chat.roster.len(), 2);
    assert_eq!(chat.roster[0].name, "b");
    assert_eq!(chat.roster[1].name, "d");
}

#[test]
fn missing_data_array_means_empty_roster() {
    let mut chat = new_chat();
    chat.on_frame("{\"messageType\":\"users\",\"dataArray\":[\"a\"],\"data\":null}");
    let o = chat.on_frame("{\"messageType\":\"users\",\"dataArray\":null,\"data\":null}");
    assert_eq!(o, FrameOutcome::RosterReplaced);
    assert_eq!(chat.roster.len(), 0);
}

#[test]
fn message_appends_to_log() {
    let mut chat = new_chat();
    let o = chat.on_frame(&message_frame("bob", "hi there"));
    assert_eq!(o, FrameOutcome::MessageAppended);
    assert_eq!(chat.log.len(), 1);
    assert_eq!(chat.log[0].from, "bob");
    assert_eq!(chat.log[0].message, "hi there");
}

#[test]
fn log_is_append_only() {
    let mut chat = new_chat();
    chat.on_frame(&message_frame("bob", "one"));
    chat.on_frame(&message_frame("carol", "two"));
    chat.on_frame(&message_frame("bob", "three"));
    assert_eq!(chat.log.len(), 3);
    assert_eq!(chat.log[0].message, "one");
    assert_eq!(chat.log[1].message, "two");
    assert_eq!(chat.log[2].message, "three");
}

#[test]
fn malformed_frame_is_isolated() {
    let mut chat = new_chat();
    let o1 = chat.on_frame("{\"messageType\":\"users\",\"dataArray\":[\"a\"],\"data\":null}");
    let o2 = chat.on_frame("{not json at all");
    let o3 = chat.on_frame(&message_frame("a", "still here"));
    assert_eq!(o1, FrameOutcome::RosterReplaced);
    assert_eq!(o2, FrameOutcome::MalformedEnvelope);
    assert_eq!(o3, FrameOutcome::MessageAppended);
    assert_eq!(chat.roster.len(), 1);
    assert_eq!(chat.roster[0].name, "a");
    assert_eq!(chat.log.len(), 1);
    assert_eq!(chat.log[0].message, "still here");
}

#[test]
fn malformed_payload_is_dropped() {
    let mut chat = new_chat();
    let o = chat.on_frame("{\"messageType\":\"message\",\"dataArray\":null,\"data\":\"oops\"}");
    assert_eq!(o, FrameOutcome::MalformedPayload);
    assert_eq!(chat.log.len(), 0);
    let o2 = chat.on_frame("{\"messageType\":\"message\",\"dataArray\":null,\"data\":null}");
    assert_eq!(o2, FrameOutcome::MalformedPayload);
    assert_eq!(chat.log.len(), 0);
}

#[test]
fn submit_round_trip() {
    let mut chat = new_chat();
    let o = chat.submit("hello");
    assert_eq!(o, SubmitOutcome::Sent);
    let out = chat.transport.take_outbound();
    assert_eq!(out.len(), 1);
    let env = decode_envelope(&out[0]).expect("outbound frame decodes");
    assert_eq!(env.message_type, "message");
    assert_eq!(
        env.data.as_deref(),
        Some("{\"from\":\"\",\"message\":\"hello\"}")
    );
    assert!(env.data_array.is_none());
    // Submitting never touches the local log: the sender sees its own
    // message only after the server round trip.
    assert_eq!(chat.log.len(), 0);
}

#[test]
fn submit_empty_is_noop() {
    let mut chat = new_chat();
    let o = chat.submit("");
    assert_eq!(o, SubmitOutcome::Empty);
    assert_eq!(chat.transport.take_outbound().len(), 0);
}

#[test]
fn submit_on_closed_channel_fails_without_queueing() {
    let mut chat = new_chat();
    chat.transport.disconnect();
    let o = chat.submit("hello");
    assert_eq!(o, SubmitOutcome::Failed);
    assert_eq!(chat.transport.take_outbound().len(), 0);
    assert_eq!(chat.log.len(), 0);
}

#[test]
fn unknown_kind_is_a_noop() {
    let mut chat = new_chat();
    chat.on_frame("{\"messageType\":\"users\",\"dataArray\":[\"a\"],\"data\":null}");
    chat.on_frame(&message_frame("a", "kept"));
    let o = chat.on_frame("{\"messageType\":\"ping\",\"dataArray\":null,\"data\":null}");
    assert_eq!(o, FrameOutcome::Ignored);
    assert_eq!(chat.roster.len(), 1);
    assert_eq!(chat.roster[0].name, "a");
    assert_eq!(
        chat.roster[0].avatar,
        "https://avatars.dicebear.com/api/adventurer-neutral/a.svg"
    );
    assert_eq!(chat.log.len(), 1);
    assert_eq!(chat.log[0].from, "a");
    assert_eq!(chat.log[0].message, "kept");
}

#[test]
fn register_echo_is_ignored() {
    let mut chat = new_chat();
    let o = chat.on_frame("{\"messageType\":\"register\",\"dataArray\":null,\"data\":\"bob\"}");
    assert_eq!(o, FrameOutcome::Ignored);
    assert_eq!(chat.roster.len(), 0);
    assert_eq!(chat.log.len(), 0);
}

#[test]
fn update_reports_what_changed() {
    let mut chat = new_chat();
    let changed = chat.update(Msg::HandleMsg(
        "{\"messageType\":\"users\",\"dataArray\":[\"a\"],\"data\":null}".to_string(),
    ));
    assert!(changed);
    let changed = chat.update(Msg::HandleMsg(
        "{\"messageType\":\"ping\",\"dataArray\":null,\"data\":null}".to_string(),
    ));
    assert!(!changed);
    let changed = chat.update(Msg::SubmitMessage("hi".to_string()));
    assert!(!changed);
    assert_eq!(chat.transport.take_outbound().len(), 1);
}

#[test]
fn update_chain_survives_malformed_frame() {
    let mut chat = new_chat();
    let first = chat.update(Msg::HandleMsg(
        "{\"messageType\":\"users\",\"dataArray\":[\"a\",\"b\"],\"data\":null}".to_string(),
    ));
    let second = chat.update(Msg::HandleMsg("{broken".to_string()));
    let third = chat.update(Msg::HandleMsg(message_frame("a", "made it")));
    assert!(first);
    assert!(!second);
    assert!(third);
    assert_eq!(chat.roster.len(), 2);
    assert_eq!(chat.roster[0].name, "a");
    assert_eq!(chat.roster[1].name, "b");
    assert_eq!(chat.log.len(), 1);
    assert_eq!(chat.log[0].from, "a");
    assert_eq!(chat.log[0].message, "made it");
}

#[test]
fn closed_session_ignores_everything() {
    let mut bus = Broadcaster::new();
    let mut chat = Chat::new("alice".to_string(), Transport::new(), &mut bus);
    chat.transport.take_outbound();
    chat.close(&mut bus);
    assert_eq!(chat.state, SessionState::Closed);
    assert_eq!(bus.subs.len(), 0);
    let o = chat.on_frame("{\"messageType\":\"users\",\"dataArray\":[\"a\"],\"data\":null}");
    assert_eq!(o, FrameOutcome::Ignored);
    assert_eq!(chat.roster.len(), 0);
    let o = chat.submit("hello");
    assert_eq!(o, SubmitOutcome::Failed);
    assert_eq!(chat.transport.take_outbound().len(), 0);
}

#[test]
fn avatar_url_is_deterministic() {
    let first = avatar_url("zoe");
    let second = avatar_url("zoe");
    assert_eq!(first, second);
    assert_eq!(
        first,
        "https://avatars.dicebear.com/api/adventurer-neutral/zoe.svg"
    );
}

#[test]
fn avatar_lookup_matches_exactly_or_falls_back() {
    let mut chat = new_chat();
    chat.on_frame("{\"messageType\":\"users\",\"dataArray\":[\"ann\",\"bo\"],\"data\":null}");
    assert_eq!(
        avatar_for(&chat.roster, "bo"),
        "https://avatars.dicebear.com/api/adventurer-neutral/bo.svg"
    );
    assert_eq!(
        avatar_for(&chat.roster, "Bo"),
        "https://cdn-icons-png.flaticon.com/512/4712/4712035.png"
    );
}
