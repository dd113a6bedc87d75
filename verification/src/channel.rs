//! Trusted bindings to the `flume` channels that carry lines and flush
//! signals between the adapter and the writer.
//!
//! Nothing is assumed about what a read returns: the writer's contracts state
//! what happens for every value a channel can hand over.

use crate::error::Error;
use vstd::prelude::*;

verus! {

#[verifier::external_type_specification]
#[verifier::external_body]
#[verifier::reject_recursive_types(T)]
pub struct ExSender<T>(flume::Sender<T>);

#[verifier::external_type_specification]
#[verifier::external_body]
#[verifier::reject_recursive_types(T)]
pub struct ExReceiver<T>(flume::Receiver<T>);

/// What one attempt to read from a channel produced.
pub enum ChannelRead<T> {
    /// A value was waiting, or arrived in time.
    Item(T),
    /// The timeout elapsed with nothing to read.
    Empty,
    /// Every sender is gone and nothing is left to read.
    Closed,
}

/// Relies on `flume::unbounded`: a fresh line channel; sending on it never
/// blocks.
#[verifier::external_body]
pub(crate) fn line_channel() -> (flume::Sender<String>, flume::Receiver<String>) {
    flume::unbounded()
}

/// Relies on `flume::bounded` with capacity zero: a rendezvous channel whose
/// send blocks until a receiver is ready.
#[verifier::external_body]
pub(crate) fn flush_request_channel() -> (flume::Sender<()>, flume::Receiver<()>) {
    flume::bounded(0)
}

/// Relies on `flume::bounded` with capacity zero: a rendezvous channel whose
/// send blocks until a receiver is ready.
#[verifier::external_body]
pub(crate) fn flush_response_channel() -> (
    flume::Sender<Result<(), Error>>,
    flume::Receiver<Result<(), Error>>,
) {
    flume::bounded(0)
}

/// Relies on `flume::Sender::send`: fails only once every receiver is gone;
/// on failure the unsent line comes back.
#[verifier::external_body]
pub(crate) fn send_line(s: &flume::Sender<String>, line: String) -> Result<(), String> {
    s.send(line).map_err(|e| e.0)
}

/// Relies on `flume::Sender::send` on a rendezvous channel: blocks until the
/// writer receives the signal; `false` once the writer is gone.
#[verifier::external_body]
pub(crate) fn send_flush_request(s: &flume::Sender<()>) -> bool {
    s.send(()).is_ok()
}

/// Relies on `flume::Sender::send` on a rendezvous channel: blocks until the
/// caller receives the result; `false` once the caller is gone.
#[verifier::external_body]
pub(crate) fn send_flush_response(
    s: &flume::Sender<Result<(), Error>>,
    result: Result<(), Error>,
) -> bool {
    s.send(result).is_ok()
}

/// Relies on `flume::Receiver::recv_timeout`: waits up to the timeout for a
/// line.
#[verifier::external_body]
pub(crate) fn recv_line_timeout(
    r: &flume::Receiver<String>,
    timeout_ms: u64,
) -> ChannelRead<String> {
    match r.recv_timeout(std::time::Duration::from_millis(timeout_ms)) {
        Ok(l) => ChannelRead::Item(l),
        Err(flume::RecvTimeoutError::Timeout) => ChannelRead::Empty,
        Err(flume::RecvTimeoutError::Disconnected) => ChannelRead::Closed,
    }
}

/// Relies on `flume::Receiver::recv_timeout`: waits up to the timeout for a
/// flush signal.
#[verifier::external_body]
pub(crate) fn recv_flush_timeout(r: &flume::Receiver<()>, timeout_ms: u64) -> ChannelRead<()> {
    match r.recv_timeout(std::time::Duration::from_millis(timeout_ms)) {
        Ok(u) => ChannelRead::Item(u),
        Err(flume::RecvTimeoutError::Timeout) => ChannelRead::Empty,
        Err(flume::RecvTimeoutError::Disconnected) => ChannelRead::Closed,
    }
}

/// Relies on `flume::Receiver::recv`: blocks for a flush result; fails only
/// on disconnection, so it never reports an empty read.
#[verifier::external_body]
pub(crate) fn recv_flush_result(
    r: &flume::Receiver<Result<(), Error>>,
) -> (res: ChannelRead<Result<(), Error>>)
    ensures
        !(res is Empty),
{
    match r.recv() {
        Ok(v) => ChannelRead::Item(v),
        Err(flume::RecvError::Disconnected) => ChannelRead::Closed,
    }
}

/// Relies on `flume::Receiver::drain`: takes every line already sitting in
/// the channel, in enqueue order, without waiting.
#[verifier::external_body]
pub(crate) fn drain_lines(r: &flume::Receiver<String>) -> Vec<String> {
    r.drain().collect()
}

} // verus!
