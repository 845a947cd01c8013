//! Registry and router of a relay for real-time signalling between peers.
//!
//! Peers are grouped by the sub-protocol they negotiated when they connected;
//! the router hands each inbound message, rewritten to name its sender, to
//! every other peer of the group, or to the one peer the message addresses.
pub mod addr;
pub mod dispatch;
pub mod lifecycle;
pub mod message;
pub mod outbox;
pub mod registry;
pub mod router;
