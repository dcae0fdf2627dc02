//! Client side of a topic-based publish/subscribe protocol multiplexed over a
//! single bidirectional text-frame transport connection.
//!
//! A [`socket::Socket`] owns a set of [`channel::Channel`]s, one per topic.
//! Each channel holds listeners: (event name, callback) pairs.  Inbound wire
//! frames are decoded by [`codec`] and demultiplexed to every listener whose
//! channel topic and event name match.  A [`heartbeat::Heartbeat`] state
//! machine governs the periodic liveness frames.  The transport itself
//! (opening the connection, pumping frames) lives outside this crate; the
//! library only sees a sender handle for outbound text and is handed each
//! inbound text frame.

pub mod channel;
pub mod codec;
pub mod error;
pub mod heartbeat;
pub mod socket;
