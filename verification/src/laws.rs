//! The protocol's guarantees over whole frame sequences, stated and proved
//! once and for all: total roster replacement, append-only log growth, and
//! the isolation of malformed or unknown frames.

use vstd::prelude::*;
use crate::codec::lemma_decode_encode_chat;
use crate::codec::lemma_decode_encode_envelope;
use crate::codec::spec_decode_chat;
use crate::codec::spec_decode_envelope;
use crate::codec::spec_encode_chat;
use crate::protocol::Envelope;
use crate::protocol::MessageView;
use crate::protocol::MsgTypes;
use crate::session::SessionView;
use crate::session::spec_roster_of;
use crate::session::spec_step;
use crate::session::spec_submit_frame;

verus! {

/// The session state after a whole sequence of inbound frames, applied in
/// arrival order.
pub open spec fn spec_run(s: SessionView, frames: Seq<Seq<char>>) -> SessionView
    decreases frames.len(),
{
    if frames.len() == 0 {
        s
    } else {
        spec_run(spec_step(s, frames[0]), frames.skip(1))
    }
}

/// The chat messages one frame contributes to the log: one for a
/// well-formed `message` envelope with a well-formed payload, none
/// otherwise.
pub open spec fn spec_frame_messages(frame: Seq<char>) -> Seq<MessageView> {
    match spec_decode_envelope(frame) {
        None => Seq::empty(),
        Some(env) => {
            if env.message_type == MsgTypes::Users.spec_wire_name() {
                Seq::empty()
            } else if env.message_type == MsgTypes::Message.spec_wire_name() {
                match env.data {
                    None => Seq::empty(),
                    Some(d) => match spec_decode_chat(d) {
                        None => Seq::empty(),
                        Some(m) => seq![m],
                    },
                }
            } else {
                Seq::empty()
            }
        },
    }
}

/// The chat messages a sequence of frames carries, in arrival order.
pub open spec fn spec_messages_of(frames: Seq<Seq<char>>) -> Seq<MessageView>
    decreases frames.len(),
{
    if frames.len() == 0 {
        Seq::empty()
    } else {
        spec_frame_messages(frames[0]) + spec_messages_of(frames.skip(1))
    }
}

/// The names a `users` envelope lists; an absent or `null` `dataArray`
/// lists nobody.
pub open spec fn spec_frame_names(frame: Seq<char>) -> Seq<Seq<char>> {
    match spec_decode_envelope(frame) {
        None => Seq::empty(),
        Some(env) => match env.data_array {
            Some(l) => l,
            None => Seq::empty(),
        },
    }
}

/// The log is append-only: after any sequence of frames, in any starting
/// state, the log is the old log with exactly the carried messages appended
/// in arrival order — its length grows by exactly the number of envelopes
/// that decoded as well-formed `message`s, and nothing is reordered,
/// rewritten or dropped.
pub proof fn lemma_log_append_only(s: SessionView, frames: Seq<Seq<char>>)
    ensures
        spec_run(s, frames).log == s.log + spec_messages_of(frames),
    decreases frames.len(),
{
    if frames.len() == 0 {
        assert(s.log + spec_messages_of(frames) =~= s.log);
    } else {
        let s1 = spec_step(s, frames[0]);
        lemma_log_append_only(s1, frames.skip(1));
        assert(s1.log =~= s.log + spec_frame_messages(frames[0]));
        assert(s.log + spec_frame_messages(frames[0]) + spec_messages_of(frames.skip(1)) =~= s.log
            + spec_messages_of(frames));
    }
}

/// Roster replacement is total: a `users` envelope makes the roster exactly
/// one derived profile per listed name, in the server's order — whatever
/// either roster held before, the same roster comes out, so no prior entry
/// survives except by being named again. The log is untouched.
pub proof fn lemma_roster_replacement(s1: SessionView, s2: SessionView, frame: Seq<char>)
    requires
        spec_decode_envelope(frame) is Some,
        spec_decode_envelope(frame)->Some_0.message_type == MsgTypes::Users.spec_wire_name(),
    ensures
        spec_step(s1, frame).roster == spec_roster_of(spec_frame_names(frame)),
        spec_step(s2, frame).roster == spec_roster_of(spec_frame_names(frame)),
        spec_step(s1, frame).log == s1.log,
{
}

/// A malformed frame is isolated: it changes nothing at all.
pub proof fn lemma_malformed_isolation(s: SessionView, frame: Seq<char>)
    requires
        spec_decode_envelope(frame) is None,
    ensures
        spec_step(s, frame) == s,
{
}

/// A malformed frame in the middle of a sequence leaves the valid frames
/// around it applying exactly as if it had never arrived.
pub proof fn lemma_malformed_skipped(s: SessionView, frames: Seq<Seq<char>>, i: int)
    requires
        0 <= i < frames.len(),
        spec_decode_envelope(frames[i]) is None,
    ensures
        spec_run(s, frames) == spec_run(s, frames.remove(i)),
    decreases frames.len(),
{
    if i == 0 {
        assert(spec_step(s, frames[0]) == s);
        assert(frames.remove(0) =~= frames.skip(1));
    } else {
        assert(frames.skip(1)[i - 1] == frames[i]);
        lemma_malformed_skipped(spec_step(s, frames[0]), frames.skip(1), i - 1);
        assert(frames.remove(i)[0] == frames[0]);
        assert(frames.skip(1).remove(i - 1) =~= frames.remove(i).skip(1));
    }
}

/// Submit round trip: the one frame that submitting `text` queues decodes
/// back to exactly a `message` envelope, with no name list and with a
/// nested payload that decodes to `text` from an unnamed sender — so the
/// receiving side reads exactly what was typed, and a session that feeds
/// its own frame back appends exactly that one message to its log.
pub proof fn lemma_submit_round_trip(text: Seq<char>)
    ensures
        spec_decode_envelope(spec_submit_frame(text)) == Some(
            Envelope::spec_message(
                spec_encode_chat(MessageView { from: Seq::empty(), message: text }),
            ),
        ),
        spec_decode_chat(spec_encode_chat(MessageView { from: Seq::empty(), message: text }))
            == Some(MessageView { from: Seq::empty(), message: text }),
        spec_step(
            SessionView { roster: Seq::empty(), log: Seq::empty() },
            spec_submit_frame(text),
        ).log == seq![MessageView { from: Seq::empty(), message: text }],
{
    let m = MessageView { from: Seq::empty(), message: text };
    lemma_decode_encode_envelope(Envelope::spec_message(spec_encode_chat(m)));
    lemma_decode_encode_chat(m);
    reveal_strlit("message");
    reveal_strlit("users");
    assert("message"@.len() == 7 && "users"@.len() == 5);
    assert(MsgTypes::Message.spec_wire_name() != MsgTypes::Users.spec_wire_name());
    assert(Seq::<MessageView>::empty().push(m) =~= seq![m]);
}

/// An envelope of a kind this client does not know — and a `register`
/// echo — is a no-op: the roster and the log come out exactly as they went
/// in.
pub proof fn lemma_unknown_kind_noop(s: SessionView, frame: Seq<char>)
    requires
        spec_decode_envelope(frame) is Some,
        spec_decode_envelope(frame)->Some_0.message_type != MsgTypes::Users.spec_wire_name(),
        spec_decode_envelope(frame)->Some_0.message_type != MsgTypes::Message.spec_wire_name(),
    ensures
        spec_step(s, frame) == s,
{
}

} // verus!
