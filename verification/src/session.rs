//! The session controller: the protocol state machine.
//!
//! It owns the transport and the session state — the roster and the message
//! log — and translates between envelopes and state. Each inbound frame is
//! decoded and dispatched by its kind: `users` replaces the roster
//! wholesale, `message` appends one entry to the log, a `register` echo and
//! any kind this client does not know change nothing. A malformed frame is
//! dropped without touching the state and without stopping later frames.
//! User-submitted text becomes an outbound `Message` envelope; the log only
//! grows from frames the server sends back.

use vstd::prelude::*;
use crate::broadcaster::Broadcaster;
use crate::broadcaster::spec_find;
use crate::codec::decode_chat_message;
use crate::codec::decode_envelope;
use crate::codec::encode_chat_message;
use crate::codec::encode_envelope;
use crate::codec::spec_decode_chat;
use crate::codec::spec_decode_envelope;
use crate::codec::spec_encode_chat;
use crate::codec::spec_encode_envelope;
use crate::protocol::ChatMessage;
use crate::protocol::Envelope;
use crate::protocol::MessageView;
use crate::protocol::MsgTypes;
use crate::protocol::ProfileView;
use crate::protocol::UserProfile;
use crate::protocol::spec_profile_of;
use crate::transport::Transport;

verus! {

/// The ghost shape of the session state: the roster and the log.
#[verifier::ext_equal]
pub ghost struct SessionView {
    pub roster: Seq<ProfileView>,
    pub log: Seq<MessageView>,
}

/// The roster derived from a `Users` envelope's name list: one entry per
/// name, in the server's order, each avatar derived from its name.
pub open spec fn spec_roster_of(names: Seq<Seq<char>>) -> Seq<ProfileView> {
    Seq::new(names.len(), |i: int| spec_profile_of(names[i]))
}

/// What one inbound frame does to the session state.
pub open spec fn spec_step(s: SessionView, frame: Seq<char>) -> SessionView {
    match spec_decode_envelope(frame) {
        None => s,
        Some(env) => {
            if env.message_type == MsgTypes::Users.spec_wire_name() {
                SessionView {
                    roster: spec_roster_of(
                        match env.data_array {
                            Some(l) => l,
                            None => Seq::empty(),
                        },
                    ),
                    log: s.log,
                }
            } else if env.message_type == MsgTypes::Message.spec_wire_name() {
                match env.data {
                    None => s,
                    Some(d) => match spec_decode_chat(d) {
                        None => s,
                        Some(m) => SessionView { roster: s.roster, log: s.log.push(m) },
                    },
                }
            } else {
                s
            }
        },
    }
}

/// What the session reports of one inbound frame.
#[derive(Clone, Copy, PartialEq, Eq, Structural, Debug)]
pub enum FrameOutcome {
    /// A `users` envelope: the roster was replaced.
    RosterReplaced,
    /// A `message` envelope with a well-formed payload: the log grew by one.
    MessageAppended,
    /// A well-formed envelope of no effect: a `register` echo or a kind
    /// this client does not know.
    Ignored,
    /// Not a well-formed envelope; the frame was dropped.
    MalformedEnvelope,
    /// A `message` envelope whose nested payload is not a well-formed chat
    /// message; the frame was dropped.
    MalformedPayload,
}

/// The report [`Chat::on_frame`] owes for a frame.
pub open spec fn spec_outcome(frame: Seq<char>) -> FrameOutcome {
    match spec_decode_envelope(frame) {
        None => FrameOutcome::MalformedEnvelope,
        Some(env) => {
            if env.message_type == MsgTypes::Users.spec_wire_name() {
                FrameOutcome::RosterReplaced
            } else if env.message_type == MsgTypes::Message.spec_wire_name() {
                match env.data {
                    None => FrameOutcome::MalformedPayload,
                    Some(d) => match spec_decode_chat(d) {
                        None => FrameOutcome::MalformedPayload,
                        Some(m) => FrameOutcome::MessageAppended,
                    },
                }
            } else {
                FrameOutcome::Ignored
            }
        },
    }
}

/// How [`Chat::submit`] ended.
#[derive(Clone, Copy, PartialEq, Eq, Structural, Debug)]
pub enum SubmitOutcome {
    /// The frame was handed to the transport.
    Sent,
    /// The text was empty; nothing was built or sent.
    Empty,
    /// The transport refused the frame; it is not queued and not retried.
    Failed,
}

/// Where the session stands in its lifecycle.
#[derive(Clone, Copy, PartialEq, Eq, Structural, Debug)]
pub enum SessionState {
    /// Constructed, but the register envelope could not be handed to the
    /// transport.
    Connecting,
    /// The register envelope was accepted by the transport.
    Registered,
    /// Frames or submissions have flowed.
    Active,
    /// Torn down: the subscription is released, the outbound channel is
    /// closed, and inbound frames change nothing any more.
    Closed,
}

/// One input to the session controller: an inbound frame handed over by
/// the broadcaster, or text the user submitted.
pub enum Msg {
    HandleMsg(String),
    SubmitMessage(String),
}

/// The frame that registers `username` with the server.
pub open spec fn spec_register_frame(username: Seq<char>) -> Seq<char> {
    spec_encode_envelope(Envelope::spec_register(username))
}

/// The frame that carries user-submitted `text`: a `message` envelope whose
/// `data` is the encoded chat payload with an empty `from` — the receiving
/// side names the sender, not this client.
pub open spec fn spec_submit_frame(text: Seq<char>) -> Seq<char> {
    spec_encode_envelope(
        Envelope::spec_message(
            spec_encode_chat(MessageView { from: Seq::empty(), message: text }),
        ),
    )
}

/// The session controller: one per connection. `roster` and `log` are owned
/// here exclusively; the roster is replaced wholesale on each `users`
/// envelope and the log grows by appending only.
pub struct Chat {
    pub username: String,
    pub transport: Transport,
    pub subscription: u64,
    pub state: SessionState,
    pub registered: bool,
    pub roster: Vec<UserProfile>,
    pub log: Vec<ChatMessage>,
}

impl Chat {
    /// The ghost shape of the state this session shows its consumers.
    pub open spec fn sview(self) -> SessionView {
        SessionView { roster: self.roster.deep_view(), log: self.log.deep_view() }
    }

    /// Opens a session for an authenticated `username`: queues the
    /// `register` envelope on the transport and subscribes to the
    /// broadcaster. A refused register send is not fatal: the session stays
    /// in `Connecting`, unregistered, and the next frame or submission moves
    /// it on and retries the channel.
    pub fn new(username: String, transport: Transport, bus: &mut Broadcaster) -> (c: Chat)
        requires
            old(bus).wf(),
            old(bus).next_id < u64::MAX,
        ensures
            final(bus).wf(),
            final(bus).subs@.len() == old(bus).subs@.len() + 1,
            final(bus).subs@.last().id == c.subscription,
            final(bus).subs@.last().pending@.len() == 0,
            forall|i: int|
                0 <= i < old(bus).subs@.len() ==> final(bus).subs@[i] == old(bus).subs@[i],
            c.username == username,
            c.roster@.len() == 0,
            c.log@.len() == 0,
            c.transport.connected == transport.connected,
            c.registered == transport.connected,
            transport.connected ==> c.transport.frames() == transport.frames().push(
                spec_register_frame(username@),
            ) && c.state == SessionState::Registered,
            !transport.connected ==> c.transport.frames() == transport.frames() && c.state
                == SessionState::Connecting,
    {
        let env = Envelope::register(username.clone());
        let frame = encode_envelope(&env);
        let mut t = transport;
        let ghost before = t.frames();
        let sent = t.send(frame);
        let registered = sent.is_ok();
        proof {
            if transport.connected {
                assert(t.frames() =~= before.push(spec_register_frame(username@)));
            }
        }
        let sub = bus.subscribe();
        Chat {
            username,
            transport: t,
            subscription: sub,
            state: if registered {
                SessionState::Registered
            } else {
                SessionState::Connecting
            },
            registered,
            roster: Vec::new(),
            log: Vec::new(),
        }
    }

    /// Applies one inbound frame: decodes it and mutates the roster or the
    /// log exactly as [`spec_step`] says, reporting [`spec_outcome`]. A
    /// malformed frame, a malformed nested payload, a `register` echo and
    /// an unknown kind all leave the state untouched; a closed session
    /// ignores every frame.
    pub fn on_frame(&mut self, frame: &str) -> (r: FrameOutcome)
        ensures
            final(self).username == old(self).username,
            final(self).transport == old(self).transport,
            final(self).subscription == old(self).subscription,
            final(self).registered == old(self).registered,
            old(self).state == SessionState::Closed ==> *final(self) == *old(self) && r
                == FrameOutcome::Ignored,
            old(self).state != SessionState::Closed ==> final(self).state == SessionState::Active
                && final(self).sview() == spec_step(old(self).sview(), frame@) && r
                == spec_outcome(frame@),
    {
        if self.state == SessionState::Closed {
            return FrameOutcome::Ignored;
        }
        self.state = SessionState::Active;
        match decode_envelope(frame) {
            None => FrameOutcome::MalformedEnvelope,
            Some(env) => {
                let users = MsgTypes::Users.wire_name();
                let message = MsgTypes::Message.wire_name();
                if env.message_type == users {
                    let names = match env.data_array {
                        Some(l) => l,
                        None => Vec::new(),
                    };
                    let ghost ndv = names.deep_view();
                    proof {
                        if (spec_decode_envelope(frame@)->Some_0.data_array) is None {
                            assert(ndv =~= Seq::<Seq<char>>::empty());
                        }
                    }
                    let mut roster: Vec<UserProfile> = Vec::new();
                    let mut i: usize = 0;
                    while i < names.len()
                        invariant
                            0 <= i <= names.len(),
                            ndv == names.deep_view(),
                            ndv.len() == names@.len(),
                            roster@.len() == i,
                            forall|j: int| 0 <= j < i ==> roster@[j]@ == spec_profile_of(ndv[j]),
                        decreases names.len() - i,
                    {
                        roster.push(UserProfile::from_name(names[i].as_str()));
                        i = i + 1;
                    }
                    proof {
                        assert(roster.deep_view() =~= spec_roster_of(ndv));
                    }
                    self.roster = roster;
                    FrameOutcome::RosterReplaced
                } else if env.message_type == message {
                    match env.data {
                        None => FrameOutcome::MalformedPayload,
                        Some(d) => match decode_chat_message(d.as_str()) {
                            None => FrameOutcome::MalformedPayload,
                            Some(m) => {
                                let ghost mv = m@;
                                self.log.push(m);
                                proof {
                                    assert(self.log.deep_view() =~= old(self).log.deep_view().push(mv));
                                }
                                FrameOutcome::MessageAppended
                            },
                        },
                    }
                } else {
                    FrameOutcome::Ignored
                }
            },
        }
    }

    /// Builds the outbound frame for `text` and queues it on the transport.
    /// Empty text is a no-op. The roster and the log are never touched: the
    /// sender sees its own message only when the server sends it back. A
    /// refused send is reported and the text is neither queued nor retried.
    pub fn submit(&mut self, text: &str) -> (r: SubmitOutcome)
        ensures
            final(self).username == old(self).username,
            final(self).subscription == old(self).subscription,
            final(self).registered == old(self).registered,
            final(self).roster == old(self).roster,
            final(self).log == old(self).log,
            final(self).transport.connected == old(self).transport.connected,
            r == SubmitOutcome::Empty <==> text@.len() == 0,
            text@.len() == 0 ==> *final(self) == *old(self),
            text@.len() > 0 ==> final(self).state == (if old(self).state == SessionState::Closed {
                SessionState::Closed
            } else {
                SessionState::Active
            }),
            text@.len() > 0 && old(self).transport.connected ==> r == SubmitOutcome::Sent && final(self).transport.frames() == old(self).transport.frames().push(spec_submit_frame(text@)),
            text@.len() > 0 && !old(self).transport.connected ==> r == SubmitOutcome::Failed
                && final(self).transport.frames() == old(self).transport.frames(),
    {
        if text.is_empty() {
            return SubmitOutcome::Empty;
        }
        if self.state != SessionState::Closed {
            self.state = SessionState::Active;
        }
        let payload = encode_chat_message(
            &(ChatMessage { from: String::new(), message: text.to_owned() }),
        );
        let env = Envelope::message(payload);
        let frame = encode_envelope(&env);
        let ghost before = self.transport.frames();
        let sent = self.transport.send(frame);
        proof {
            if old(self).transport.connected {
                assert(self.transport.frames() =~= before.push(spec_submit_frame(text@)));
            }
        }
        match sent {
            Ok(_) => SubmitOutcome::Sent,
            Err(_) => SubmitOutcome::Failed,
        }
    }

    /// Dispatches one input and reports whether the state a consumer renders
    /// changed: true exactly for a roster replacement or a log append.
    pub fn update(&mut self, msg: Msg) -> (changed: bool)
        ensures
            final(self).username == old(self).username,
            final(self).subscription == old(self).subscription,
            final(self).registered == old(self).registered,
            match msg {
                Msg::HandleMsg(frame) => {
                    &&& final(self).transport == old(self).transport
                    &&& old(self).state == SessionState::Closed ==> *final(self) == *old(self)
                        && !changed
                    &&& old(self).state != SessionState::Closed ==> final(self).state
                        == SessionState::Active && final(self).sview() == spec_step(
                        old(self).sview(),
                        frame@,
                    ) && changed == (spec_outcome(frame@) == FrameOutcome::RosterReplaced
                        || spec_outcome(frame@) == FrameOutcome::MessageAppended)
                },
                Msg::SubmitMessage(text) => {
                    &&& !changed
                    &&& final(self).roster == old(self).roster
                    &&& final(self).log == old(self).log
                    &&& final(self).transport.connected == old(self).transport.connected
                    &&& text@.len() == 0 ==> *final(self) == *old(self)
                    &&& text@.len() > 0 ==> final(self).state == (
                    if old(self).state == SessionState::Closed {
                        SessionState::Closed
                    } else {
                        SessionState::Active
                    })
                    &&& text@.len() > 0 && old(self).transport.connected ==> final(self).transport.frames() == old(self).transport.frames().push(
                        spec_submit_frame(text@),
                    )
                    &&& text@.len() > 0 && !old(self).transport.connected ==> final(self).transport.frames() == old(self).transport.frames()
                },
            },
    {
        match msg {
            Msg::HandleMsg(frame) => {
                let outcome = self.on_frame(frame.as_str());
                outcome == FrameOutcome::RosterReplaced || outcome == FrameOutcome::MessageAppended
            },
            Msg::SubmitMessage(text) => {
                self.submit(text.as_str());
                false
            },
        }
    }

    /// Ends the session: releases the broadcaster subscription, closes the
    /// outbound channel, and enters the terminal state. Frames already
    /// queued outbound stay queued for the runtime to drain.
    pub fn close(&mut self, bus: &mut Broadcaster)
        requires
            old(bus).wf(),
        ensures
            final(bus).wf(),
            final(self).state == SessionState::Closed,
            !final(self).transport.connected,
            final(self).transport.outbound == old(self).transport.outbound,
            final(self).username == old(self).username,
            final(self).subscription == old(self).subscription,
            final(self).registered == old(self).registered,
            final(self).roster == old(self).roster,
            final(self).log == old(self).log,
            spec_find(old(bus).subs@, old(self).subscription) >= 0 ==> final(bus).subs@ == old(bus).subs@.remove(spec_find(old(bus).subs@, old(self).subscription)),
            spec_find(old(bus).subs@, old(self).subscription) < 0 ==> final(bus).subs == old(bus).subs,
            final(bus).next_id == old(bus).next_id,
    {
        bus.unsubscribe(self.subscription);
        self.transport.disconnect();
        self.state = SessionState::Closed;
    }
}

} // verus!
