//! The producer-facing adapter: formats records, forwards lines and flush
//! requests to the writer, and shuts the channels down exactly once.
//!
//! The adapter owns the sending ends of the channels.  Dropping them on
//! shutdown is the only signal the writer needs to drain and stop.  An
//! embedder that shares one adapter between threads guards it with its own
//! lock; a failed non-blocking acquisition there is the place for
//! [`Error::LockError`].

use crate::channel::recv_flush_result;
use crate::channel::send_flush_request;
use crate::channel::send_line;
use crate::channel::ChannelRead;
use crate::error::Error;
use vstd::prelude::*;
use vstd::string::StringExecFns;

verus! {

/// The formatted wire line for one record: `LEVEL [module] message`.
pub open spec fn formatted_line(level: Seq<char>, module: Seq<char>, message: Seq<char>) -> Seq<
    char,
> {
    level + " ["@ + module + "] "@ + message
}

/// Format one record as its wire line.
pub fn format_line(level: &str, module: &str, message: &str) -> (r: String)
    ensures
        r@ == formatted_line(level@, module@, message@),
{
    let mut out = String::new();
    out.append(level);
    out.append(" [");
    out.append(module);
    out.append("] ");
    out.append(message);
    proof {
        assert(out@ =~= formatted_line(level@, module@, message@));
    }
    out
}

/// The sending half of the flush rendezvous: a request is answered by
/// exactly one result.
pub struct FlushStream {
    /// Flush request sender.
    pub request: flume::Sender<()>,
    /// Flush response receiver.
    pub response: flume::Receiver<Result<(), Error>>,
}

/// The producer-facing adapter.  Once shut down, both channel slots are
/// empty and every operation fails fast with [`Error::AdapterShutdownError`].
pub struct DataDogAdapter {
    /// The line channel's sending end, until shutdown.
    pub log_channel: Option<flume::Sender<String>>,
    /// The flush rendezvous pair, until shutdown.
    pub flush_channel: Option<FlushStream>,
}

impl DataDogAdapter {
    /// Whether the adapter has been shut down.
    pub open spec fn is_shut_down(&self) -> bool {
        self.log_channel is None && self.flush_channel is None
    }

    /// Create a new [`DataDogAdapter`] around the channel ends.
    pub fn new(
        logs: flume::Sender<String>,
        flush_request: flume::Sender<()>,
        flush_response: flume::Receiver<Result<(), Error>>,
    ) -> (r: Self)
        ensures
            r.log_channel == Some(logs),
            (r.flush_channel matches Some(f) && f.request == flush_request && f.response
                == flush_response),
    {
        Self {
            log_channel: Some(logs),
            flush_channel: Some(FlushStream { request: flush_request, response: flush_response }),
        }
    }

    /// Format one record and enqueue it for the writer.  Fails with
    /// `AdapterShutdownError` after shutdown, and with `ChannelError` once
    /// the writer is gone; it never blocks.
    pub fn write(&self, level: &str, module: &str, message: &str) -> (r: Result<(), Error>)
        ensures
            (match r {
                Ok(u) => self.log_channel is Some,
                Err(Error::AdapterShutdownError) => self.log_channel is None,
                Err(Error::ChannelError(_)) => self.log_channel is Some,
                Err(_) => false,
            }),
    {
        match &self.log_channel {
            Option::None => Err(Error::AdapterShutdownError),
            Option::Some(logs) => {
                let line = format_line(level, module, message);
                match send_line(logs, line) {
                    Ok(u) => Ok(()),
                    Err(_) => Err(
                        Error::ChannelError(String::from_str("the writer task is gone")),
                    ),
                }
            },
        }
    }

    /// Request a flush and block until the writer has attempted to send
    /// everything enqueued before this call, returning the outcome the
    /// writer reported.  Fails with `AdapterShutdownError` after shutdown
    /// and with `ChannelError` once the writer is gone.
    pub fn flush(&self) -> (r: Result<(), Error>)
        ensures
            self.flush_channel is None ==> r matches Err(Error::AdapterShutdownError),
    {
        match &self.flush_channel {
            Option::None => Err(Error::AdapterShutdownError),
            Option::Some(stream) => {
                if !send_flush_request(&stream.request) {
                    Err(Error::ChannelError(String::from_str("the writer task is gone")))
                } else {
                    match recv_flush_result(&stream.response) {
                        ChannelRead::Item(result) => result,
                        ChannelRead::Empty => Err(
                            Error::ChannelError(String::from_str("the writer task is gone")),
                        ),
                        ChannelRead::Closed => Err(
                            Error::ChannelError(String::from_str("the writer task is gone")),
                        ),
                    }
                }
            },
        }
    }

    /// Shut the adapter down: attempt one best-effort final flush (its
    /// outcome is reported to no one), then drop both sending ends so the
    /// writer drains and stops.  Calling it again changes nothing and sends
    /// nothing: both slots are already empty.
    pub fn shutdown(&mut self)
        ensures
            final(self).is_shut_down(),
            old(self).is_shut_down() ==> *final(self) == *old(self),
    {
        let _ = self.flush();
        self.flush_channel = None;
        self.log_channel = None;
    }
}

} // verus!
