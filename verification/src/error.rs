//! The error taxonomy shared by the adapter and the writer.

use vstd::prelude::*;

verus! {

/// Failures surfaced by the adapter and the batching engine.
#[derive(Debug)]
pub enum Error {
    /// Network or HTTP failure while a batch was being sent.
    HttpError(String),
    /// Local byte-stream failure while a batch was being built.
    IOError(String),
    /// An internal synchronization slot could not be acquired.
    LockError(String),
    /// The adapter has been shut down and can no longer be operated on.
    AdapterShutdownError,
    /// The peer end of an internal channel is gone.
    ChannelError(String),
}

/// Short description of each [`Error`] variant.
pub open spec fn message_spec(e: &Error) -> Seq<char> {
    match e {
        Error::HttpError(_) => "Http Error"@,
        Error::IOError(_) => "IO Error"@,
        Error::LockError(_) => "Lock Error"@,
        Error::AdapterShutdownError => "Adapter is shut down"@,
        Error::ChannelError(_) => "Channel communication error"@,
    }
}

impl Error {
    /// Short description of the error, for embedders that render it.
    pub fn message(&self) -> (r: &'static str)
        ensures
            r@ == message_spec(self),
    {
        match self {
            Error::HttpError(_) => "Http Error",
            Error::IOError(_) => "IO Error",
            Error::LockError(_) => "Lock Error",
            Error::AdapterShutdownError => "Adapter is shut down",
            Error::ChannelError(_) => "Channel communication error",
        }
    }
}

} // verus!
