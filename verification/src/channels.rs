//! Trusted declarations for the standard in-process channels that tie the
//! predictor to the brightness controller and the ambient-light sampler.
//!
//! What a receive returns depends on what other threads have sent, so none of
//! these contracts promises a particular value: the verified callers state
//! what holds of every outcome.

use vstd::prelude::*;

verus! {

/// The sending half of a standard channel, opaque to the verifier.
#[verifier::external_type_specification]
#[verifier::external_body]
#[verifier::reject_recursive_types(T)]
pub struct ExSender<T>(std::sync::mpsc::Sender<T>);

/// The receiving half of a standard channel, opaque to the verifier.
#[verifier::external_type_specification]
#[verifier::external_body]
#[verifier::reject_recursive_types(T)]
pub struct ExReceiver<T>(std::sync::mpsc::Receiver<T>);

/// Relies on std::sync::mpsc::Sender::send: delivers the value unless the
/// receiving end has disconnected, in which case it returns an error.
#[verifier::external_body]
pub(crate) fn send_u64(tx: &std::sync::mpsc::Sender<u64>, v: u64) -> (ok: bool) {
    tx.send(v).is_ok()
}

/// Relies on std::sync::mpsc::Receiver::recv: blocks for the next value and
/// returns an error only when the sending end has disconnected.
#[verifier::external_body]
pub(crate) fn recv_u64(rx: &std::sync::mpsc::Receiver<u64>) -> (r: Option<u64>) {
    rx.recv().ok()
}

/// Relies on std::sync::mpsc::Receiver::recv_timeout: like `recv`, but also
/// gives up once the given number of seconds has passed without a value.
#[verifier::external_body]
pub(crate) fn recv_u64_timeout(rx: &std::sync::mpsc::Receiver<u64>, secs: u64) -> (r: Option<
    u64,
>) {
    rx.recv_timeout(std::time::Duration::from_secs(secs)).ok()
}

/// Relies on std::sync::mpsc::Receiver::try_iter: drains every value queued
/// right now without blocking; the last one drained is returned.
#[verifier::external_body]
pub(crate) fn drain_last_u64(rx: &std::sync::mpsc::Receiver<u64>) -> (r: Option<u64>) {
    rx.try_iter().last()
}

} // verus!
