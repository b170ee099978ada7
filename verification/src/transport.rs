//! The transport: one outbound channel of text frames toward the server.
//!
//! `send` is an enqueue, never a flush: the session layer queues frames
//! here, and the runtime around the library drains the queue onto the real
//! connection. The transport neither retries nor validates frame content; a
//! closed channel refuses the frame and that is the only failure.

use vstd::prelude::*;

verus! {

/// Why an outbound frame was not accepted.
#[derive(Clone, Copy, PartialEq, Eq, Structural, Debug)]
pub enum SendError {
    /// The outbound channel is closed.
    Disconnected,
}

/// One outbound channel. `outbound` holds the frames accepted so far,
/// oldest first, that the surrounding runtime has yet to transmit.
pub struct Transport {
    pub connected: bool,
    pub outbound: Vec<String>,
}

impl Transport {
    /// The queued frames as character sequences, oldest first.
    pub open spec fn frames(self) -> Seq<Seq<char>> {
        self.outbound.deep_view()
    }

    /// A transport with an open channel and nothing queued.
    pub fn new() -> (t: Transport)
        ensures
            t.connected,
            t.outbound@.len() == 0,
    {
        Transport { connected: true, outbound: Vec::new() }
    }

    /// Closes the outbound channel; frames already queued stay queued.
    pub fn disconnect(&mut self)
        ensures
            !final(self).connected,
            final(self).outbound == old(self).outbound,
    {
        self.connected = false;
    }

    /// Enqueues `frame` if the channel is open. A closed channel refuses
    /// the frame, changes nothing, and that is the only way `send` fails.
    pub fn send(&mut self, frame: String) -> (r: Result<(), SendError>)
        ensures
            final(self).connected == old(self).connected,
            old(self).connected ==> r is Ok && final(self).outbound@ == old(self).outbound@.push(frame),
            !old(self).connected ==> r == Err::<(), SendError>(SendError::Disconnected) && final(self).outbound == old(self).outbound,
    {
        if self.connected {
            self.outbound.push(frame);
            Ok(())
        } else {
            Err(SendError::Disconnected)
        }
    }

    /// Hands every queued frame to the runtime, oldest first, and leaves
    /// the queue empty.
    pub fn take_outbound(&mut self) -> (r: Vec<String>)
        ensures
            final(self).connected == old(self).connected,
            final(self).outbound@.len() == 0,
            r == old(self).outbound,
    {
        let mut out: Vec<String> = Vec::new();
        core::mem::swap(&mut out, &mut self.outbound);
        out
    }
}

} // verus!
