//! Client-side core of a realtime chat session.
//!
//! The crate keeps a local view of "who is online" (the roster) and "what has
//! been said" (the message log) consistent with frames pushed by a chat
//! server, and turns user actions into outbound frames. It holds:
//!
//! - the wire-protocol data types ([`protocol`]),
//! - a verified codec for the JSON wire format ([`codec`]),
//! - an outbound-queue transport ([`transport`]),
//! - a publish/subscribe broadcaster that fans inbound frames out to any
//!   number of consumers ([`broadcaster`]),
//! - the session controller that dispatches envelopes by kind and mutates
//!   the roster and the log ([`session`]),
//! - proved statements of the protocol's guarantees ([`laws`]).

pub mod broadcaster;
pub mod codec;
pub mod laws;
pub mod protocol;
pub mod session;
pub mod transport;
