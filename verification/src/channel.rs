//! The world's only outward dependency: send-only handles of tokio's
//! unbounded channels. Each session hands the world such handles at login;
//! the world fans events out through them and treats a failed send as a
//! broken session.

use vstd::prelude::*;

verus! {

#[verifier::external_type_specification]
#[verifier::external_body]
#[verifier::reject_recursive_types(T)]
pub struct ExUnboundedSender<T>(tokio::sync::mpsc::UnboundedSender<T>);

/// Relies on tokio::sync::mpsc::UnboundedSender::send: the message is queued
/// and the call returns Ok, unless the receiving half has been closed or
/// dropped, in which case the message comes back inside the error. Whether a
/// given send succeeds depends on the receiver's state, so nothing is
/// promised of the result.
#[verifier::external_body]
pub fn channel_send<T>(tx: &tokio::sync::mpsc::UnboundedSender<T>, message: T) -> (ok: bool) {
    tx.send(message).is_ok()
}

} // verus!
