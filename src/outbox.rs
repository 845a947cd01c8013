//! The per-peer outbound queue: an unbounded channel of futures-channel,
//! whose writer end the registry keeps and whose reader end the peer's own
//! delivery pump drains.
use vstd::prelude::*;

use futures_channel::mpsc::{UnboundedReceiver, UnboundedSender};

use crate::message::Outbound;

verus! {

#[verifier::external_type_specification]
#[verifier::external_body]
#[verifier::reject_recursive_types(T)]
pub struct ExUnboundedSender<T>(UnboundedSender<T>);

#[verifier::external_type_specification]
#[verifier::external_body]
#[verifier::reject_recursive_types(T)]
pub struct ExUnboundedReceiver<T>(UnboundedReceiver<T>);

/// Relies on futures_channel::mpsc::unbounded: a fresh channel, its writer
/// and its reader end. Nothing is promised of its contents.
#[verifier::external_body]
pub(crate) fn open_outbox() -> (r: (UnboundedSender<Outbound>, UnboundedReceiver<Outbound>)) {
    futures_channel::mpsc::unbounded()
}

/// Relies on UnboundedSender::clone: another writer end of the same channel.
#[verifier::external_body]
pub(crate) fn share_outbox(s: &UnboundedSender<Outbound>) -> (r: UnboundedSender<Outbound>) {
    s.clone()
}

/// Relies on UnboundedSender::unbounded_send: queues `m` behind what the
/// channel holds and answers `true`, or answers `false` where the reader end
/// is gone. Which of the two comes depends on the other end, so nothing is
/// promised of the answer. (It panics only once the channel holds about
/// `usize::MAX / 2` messages.)
#[verifier::external_body]
pub(crate) fn hand_over(s: &UnboundedSender<Outbound>, m: Outbound) -> (r: bool) {
    s.unbounded_send(m).is_ok()
}

} // verus!
