//! Buffered, batched shipping of log lines to a DataDog HTTP intake endpoint.
//!
//! Log lines are accepted synchronously by [`adapter::DataDogAdapter`],
//! forwarded over channels to [`writer::DataDogHttpWriter`], buffered there,
//! and split into size-bounded (optionally gzip-compressed) batches whenever a
//! line-count, byte-volume or time threshold is crossed, or a flush is
//! requested.  The embedder drives the writer's poll loop and performs the
//! HTTP posts; every batching and bookkeeping decision is made here.

use vstd::prelude::*;

pub mod adapter;
pub mod batch;
pub mod channel;
pub mod clock;
pub mod compress;
pub mod config;
pub mod error;
pub mod writer;

use crate::adapter::DataDogAdapter;
use crate::channel::flush_request_channel;
use crate::channel::flush_response_channel;
use crate::channel::line_channel;
use crate::config::DataDogConfig;
use crate::writer::DataDogHttpWriter;
use crate::writer::query_of;

verus! {

/// Create a connected [`DataDogAdapter`] and [`DataDogHttpWriter`] pair.
///
/// The embedder drives the writer's poll phases on some thread or task and
/// posts what they hand back; the adapter is what producers write to.  The
/// flush interval is in milliseconds; with `None`, only line-count and byte
/// thresholds (and explicit flushes) trigger a send.
pub fn new_datadog_http_logger(datadog_config: DataDogConfig, flush_interval: Option<i64>) -> (r: (
    DataDogAdapter,
    DataDogHttpWriter,
))
    ensures
        !r.0.is_shut_down(),
        r.0.log_channel is Some,
        r.0.flush_channel is Some,
        r.1.wf(),
        r.1.buffer().len() == 0,
        r.1.api_host@ == datadog_config.api_host@,
        r.1.api_key@ == datadog_config.api_key@,
        r.1.query.deep_view() == query_of(&datadog_config),
        r.1.max_log_lines == datadog_config.max_log_lines,
        r.1.max_payload_size == datadog_config.max_payload_size,
        r.1.max_line_size == datadog_config.max_line_size,
        r.1.flush_interval == flush_interval,
        r.1.gzip == datadog_config.gzip,
{
    let (log_sender, log_receiver) = line_channel();
    let (flush_request_sender, flush_request_receiver) = flush_request_channel();
    let (flush_response_sender, flush_response_receiver) = flush_response_channel();
    let adapter = DataDogAdapter::new(log_sender, flush_request_sender, flush_response_receiver);
    let writer = DataDogHttpWriter::new(
        datadog_config,
        flush_interval,
        log_receiver,
        flush_request_receiver,
        flush_response_sender,
    );
    (adapter, writer)
}

} // verus!
