//! The batching engine: buffer, thresholds, and the poll-loop decisions.
//!
//! The writer owns the buffer and decides when it is flushed.  The embedder
//! drives the loop: each call of [`DataDogHttpWriter::time_based_flush`],
//! [`DataDogHttpWriter::receive_logs`] and [`DataDogHttpWriter::receive_flush`]
//! hands back the request bodies that must now be posted; after a requested
//! flush the outcome of those posts is reported with
//! [`DataDogHttpWriter::respond_flush`].  Once either channel closes, one
//! final [`DataDogHttpWriter::drain`] and [`DataDogHttpWriter::flush`] empty
//! the buffer so nothing is silently dropped.
//!
//! Policy on oversized lines: `submit` never fails on one.  A line whose
//! byte length exceeds the line cap is dropped at intake, never buffered,
//! and counts toward no threshold; the cap is applied once more to each
//! rendered form when batches are built (a trailing newline, or compression
//! of a short input, can push a render over it), so an oversized line is
//! never sent and never blocks the lines around it.

use crate::batch::batches_of;
use crate::batch::build_batches;
use crate::batch::kept;
use crate::batch::lemma_batched_flatten;
use crate::batch::lemma_kept_concat;
use crate::batch::lemma_kept_singleton;
use crate::batch::lemma_renders_concat;
use crate::batch::lemma_sum_lens_concat;
use crate::batch::lemma_sum_lens_nonneg;
use crate::batch::lemma_sum_lens_push;
use crate::batch::renders_of;
use crate::batch::sum_lens;
use crate::channel::drain_lines;
use crate::channel::recv_flush_timeout;
use crate::channel::recv_line_timeout;
use crate::channel::send_flush_response;
use crate::channel::ChannelRead;
use crate::clock::now_millis;
use crate::config::DataDogConfig;
use crate::error::Error;
use vstd::prelude::*;
use vstd::seq_lib::lemma_flatten_concat;
use vstd::string::StrSliceExecFns;
use vstd::string::StringExecFns;
use vstd::utf8::encode_utf8;

verus! {

/// How long one poll of the line channel may wait, in milliseconds.
pub const POLL_TIMEOUT_MS: u64 = 100;

/// The tag list joined as `k:v` pairs separated by commas.
pub open spec fn joined_tags(tags: Seq<(Seq<char>, Seq<char>)>) -> Seq<char>
    decreases tags.len(),
{
    if tags.len() == 0 {
        Seq::empty()
    } else if tags.len() == 1 {
        tags[0].0 + ":"@ + tags[0].1
    } else {
        joined_tags(tags.drop_last()) + ","@ + tags.last().0 + ":"@ + tags.last().1
    }
}

/// The query parameters derived from a configuration.
pub open spec fn query_of(c: &DataDogConfig) -> Seq<(Seq<char>, Seq<char>)> {
    seq![
        ("host"@, c.hostname@),
        ("service"@, c.service@),
        ("ddsource"@, c.source@),
        ("ddtags"@, joined_tags(c.tags.deep_view())),
    ]
}

/// Whether a buffer has crossed a flush threshold: exactly the configured
/// line count, or at least the payload cap in bytes.
pub open spec fn needs_flush(buffer: Seq<Seq<u8>>, max_lines: int, max_payload: int) -> bool {
    buffer.len() == max_lines || sum_lens(buffer) >= max_payload
}

/// Whether adding a line would push the byte counter past what a `usize`
/// holds; the buffer is flushed first when it would.
pub open spec fn line_overflows(buffer: Seq<Seq<u8>>, line: Seq<u8>) -> bool {
    sum_lens(buffer) + line.len() > usize::MAX
}

/// The buffer left and the batches flushed when one line arrives: a line
/// whose byte length exceeds the line cap is dropped at intake, never
/// buffered, and leaves everything untouched.  Otherwise the buffer is
/// flushed first if the byte counter would overflow, the line is appended,
/// and the buffer is flushed again if it crossed a threshold.
pub open spec fn line_step(
    buffer: Seq<Seq<u8>>,
    line: Seq<u8>,
    gzip: bool,
    max_lines: int,
    max_line: int,
    max_payload: int,
) -> (Seq<Seq<u8>>, Seq<Seq<u8>>) {
    if line.len() > max_line {
        (buffer, Seq::<Seq<u8>>::empty())
    } else {
        let (b1, out1) = if line_overflows(buffer, line) {
            (Seq::<Seq<u8>>::empty(), batches_of(renders_of(buffer, gzip), max_line, max_payload))
        } else {
            (buffer, Seq::<Seq<u8>>::empty())
        };
        let b2 = b1.push(line);
        if needs_flush(b2, max_lines, max_payload) {
            (
                Seq::<Seq<u8>>::empty(),
                out1 + batches_of(renders_of(b2, gzip), max_line, max_payload),
            )
        } else {
            (b2, out1)
        }
    }
}

/// Whether the arrival of `line` flushes the buffer (and so resets the flush
/// clock).  A line dropped at intake never does.
pub open spec fn line_step_flushes(
    buffer: Seq<Seq<u8>>,
    line: Seq<u8>,
    max_lines: int,
    max_line: int,
    max_payload: int,
) -> bool {
    line.len() <= max_line && (line_overflows(buffer, line) || needs_flush(
        if line_overflows(buffer, line) {
            seq![line]
        } else {
            buffer.push(line)
        },
        max_lines,
        max_payload,
    ))
}

/// The bytes of each line of a drained batch of strings, in order.
pub open spec fn lines_as_bytes(lines: Seq<Seq<char>>) -> Seq<Seq<u8>> {
    lines.map_values(|s: Seq<char>| encode_utf8(s))
}

/// The drained lines admitted at intake: those within the line cap, as their
/// bytes, in order.
pub open spec fn admitted_lines(drained: Seq<Seq<char>>, max_line: int) -> Seq<Seq<u8>> {
    kept(lines_as_bytes(drained), max_line)
}

/// The buffer left and the batches flushed when a whole sequence of lines
/// arrives, one [`line_step`] at a time.
pub open spec fn line_steps(
    buffer: Seq<Seq<u8>>,
    lines: Seq<Seq<u8>>,
    gzip: bool,
    max_lines: int,
    max_line: int,
    max_payload: int,
) -> (Seq<Seq<u8>>, Seq<Seq<u8>>)
    decreases lines.len(),
{
    if lines.len() == 0 {
        (buffer, Seq::<Seq<u8>>::empty())
    } else {
        let (b1, out1) = line_step(buffer, lines.first(), gzip, max_lines, max_line, max_payload);
        let (b2, out2) = line_steps(b1, lines.drop_first(), gzip, max_lines, max_line, max_payload);
        (b2, out1 + out2)
    }
}

/// Law: one arriving line conserves the kept renders.  The bodies flushed by
/// the step and the renders still buffered after it hold, together and in
/// order, exactly the kept renders of the old buffer and of the line if it
/// was admitted at intake.
pub proof fn lemma_line_step_conserves(
    buffer: Seq<Seq<u8>>,
    line: Seq<u8>,
    gzip: bool,
    max_lines: int,
    max_line: int,
    max_payload: int,
)
    ensures
        ({
            let (b, out) = line_step(buffer, line, gzip, max_lines, max_line, max_payload);
            out.flatten() + kept(renders_of(b, gzip), max_line).flatten() == kept(
                renders_of(
                    if line.len() <= max_line {
                        buffer.push(line)
                    } else {
                        buffer
                    },
                    gzip,
                ),
                max_line,
            ).flatten()
        }),
{
    let (b, out) = line_step(buffer, line, gzip, max_lines, max_line, max_payload);
    if line.len() > max_line {
        assert(out =~= Seq::<Seq<u8>>::empty());
        assert(out.flatten() =~= Seq::<u8>::empty());
        assert(out.flatten() + kept(renders_of(b, gzip), max_line).flatten() =~= kept(
            renders_of(b, gzip),
            max_line,
        ).flatten());
    } else {
        assert(buffer.push(line) =~= buffer + seq![line]);

        lemma_renders_concat(buffer, seq![line], gzip);
        lemma_kept_concat(renders_of(buffer, gzip), renders_of(seq![line], gzip), max_line);
        lemma_flatten_concat(
            kept(renders_of(buffer, gzip), max_line),
            kept(renders_of(seq![line], gzip), max_line),
        );
        let kb = kept(renders_of(buffer, gzip), max_line).flatten();
        let kl = kept(renders_of(seq![line], gzip), max_line).flatten();
        if line_overflows(buffer, line) {
            let out1 = batches_of(renders_of(buffer, gzip), max_line, max_payload);
            lemma_batched_flatten(renders_of(buffer, gzip), max_line, max_payload, Seq::empty());
            assert(out1.flatten() =~= kb);
            let b2 = seq![line];
            if needs_flush(b2, max_lines, max_payload) {
                let out2 = batches_of(renders_of(b2, gzip), max_line, max_payload);
                lemma_batched_flatten(renders_of(b2, gzip), max_line, max_payload, Seq::empty());
                assert(out2.flatten() =~= kl);
                lemma_flatten_concat(out1, out2);
                assert(renders_of(b, gzip) =~= Seq::<Seq<u8>>::empty());
                assert(out.flatten() + kept(renders_of(b, gzip), max_line).flatten() =~= kb + kl);
            } else {
                assert(out.flatten() + kept(renders_of(b, gzip), max_line).flatten() =~= kb + kl);
            }
        } else {
            let b2 = buffer.push(line);
            if needs_flush(b2, max_lines, max_payload) {
                let out2 = batches_of(renders_of(b2, gzip), max_line, max_payload);
                lemma_batched_flatten(renders_of(b2, gzip), max_line, max_payload, Seq::empty());
                assert(Seq::<Seq<u8>>::empty() + out2 =~= out2);
                assert(out2.flatten() =~= kept(renders_of(b2, gzip), max_line).flatten());
                assert(renders_of(b, gzip) =~= Seq::<Seq<u8>>::empty());
                assert(out.flatten() + kept(renders_of(b, gzip), max_line).flatten() =~= kept(
                    renders_of(b2, gzip),
                    max_line,
                ).flatten());
            } else {
                assert(out =~= Seq::<Seq<u8>>::empty());
                assert(out.flatten() + kept(renders_of(b, gzip), max_line).flatten() =~= kept(
                    renders_of(b2, gzip),
                    max_line,
                ).flatten());
            }
        }
    }
}

/// Law: any sequence of arriving lines conserves the kept renders.  Whatever
/// mix of intake drops and overflow or threshold flushes the lines trigger,
/// the bodies flushed along the way and the renders still buffered at the
/// end hold, together and in order, exactly the kept renders of the old
/// buffer and of every admitted line, in enqueue order.  A flush of the
/// final buffer therefore completes a reconstruction of everything
/// submitted within the line cap.
pub proof fn lemma_line_steps_conserve(
    buffer: Seq<Seq<u8>>,
    lines: Seq<Seq<u8>>,
    gzip: bool,
    max_lines: int,
    max_line: int,
    max_payload: int,
)
    ensures
        ({
            let (b, out) = line_steps(buffer, lines, gzip, max_lines, max_line, max_payload);
            out.flatten() + kept(renders_of(b, gzip), max_line).flatten() == kept(
                renders_of(buffer + kept(lines, max_line), gzip),
                max_line,
            ).flatten()
        }),
    decreases lines.len(),
{
    if lines.len() == 0 {
        assert(kept(lines, max_line) =~= Seq::<Seq<u8>>::empty());
        assert(buffer + kept(lines, max_line) =~= buffer);
        let (b, out) = line_steps(buffer, lines, gzip, max_lines, max_line, max_payload);
        assert(out.flatten() =~= Seq::<u8>::empty());
        assert(out.flatten() + kept(renders_of(b, gzip), max_line).flatten() =~= kept(
            renders_of(b, gzip),
            max_line,
        ).flatten());
    } else {
        let first = lines.first();
        let rest = lines.drop_first();
        let (b1, out1) = line_step(buffer, first, gzip, max_lines, max_line, max_payload);
        let (b2, out2) = line_steps(b1, rest, gzip, max_lines, max_line, max_payload);
        lemma_line_step_conserves(buffer, first, gzip, max_lines, max_line, max_payload);
        lemma_line_steps_conserve(b1, rest, gzip, max_lines, max_line, max_payload);
        lemma_flatten_concat(out1, out2);
        let adm_rest = kept(rest, max_line);
        assert(lines =~= seq![first] + rest);
        lemma_kept_concat(seq![first], rest, max_line);
        assert(seq![first].drop_first() =~= Seq::<Seq<u8>>::empty());
        // Reassociate: split off the first line, then the admitted tail.
        lemma_renders_concat(b1, adm_rest, gzip);
        lemma_kept_concat(renders_of(b1, gzip), renders_of(adm_rest, gzip), max_line);
        lemma_flatten_concat(
            kept(renders_of(b1, gzip), max_line),
            kept(renders_of(adm_rest, gzip), max_line),
        );
        let o1 = out1.flatten();
        let o2 = out2.flatten();
        let k1 = kept(renders_of(b1, gzip), max_line).flatten();
        let k2 = kept(renders_of(b2, gzip), max_line).flatten();
        let krest = kept(renders_of(adm_rest, gzip), max_line).flatten();
        assert((out1 + out2).flatten() == o1 + o2);
        assert(o2 + k2 == kept(renders_of(b1 + adm_rest, gzip), max_line).flatten());
        assert(kept(renders_of(b1 + adm_rest, gzip), max_line).flatten() == k1 + krest);
        assert((o1 + o2) + k2 =~= o1 + (o2 + k2));
        assert(o1 + (k1 + krest) =~= (o1 + k1) + krest);
        if first.len() <= max_line {
            lemma_kept_singleton(first, max_line);
            assert(kept(lines, max_line) =~= seq![first] + adm_rest);
            let kpush = kept(renders_of(buffer.push(first), gzip), max_line).flatten();
            assert(o1 + k1 == kpush);
            lemma_renders_concat(buffer.push(first), adm_rest, gzip);
            lemma_kept_concat(
                renders_of(buffer.push(first), gzip),
                renders_of(adm_rest, gzip),
                max_line,
            );
            lemma_flatten_concat(
                kept(renders_of(buffer.push(first), gzip), max_line),
                kept(renders_of(adm_rest, gzip), max_line),
            );
            assert(kpush + krest == kept(
                renders_of(buffer.push(first) + adm_rest, gzip),
                max_line,
            ).flatten());
            assert(buffer.push(first) + adm_rest =~= buffer + kept(lines, max_line));
        } else {
            lemma_kept_singleton(first, max_line);
            assert(kept(lines, max_line) =~= adm_rest);
            assert(b1 == buffer);
            assert(o1 =~= Seq::<u8>::empty());
            assert(o1 + k1 =~= k1);
            lemma_renders_concat(buffer, adm_rest, gzip);
            lemma_kept_concat(renders_of(buffer, gzip), renders_of(adm_rest, gzip), max_line);
            lemma_flatten_concat(
                kept(renders_of(buffer, gzip), max_line),
                kept(renders_of(adm_rest, gzip), max_line),
            );
            assert(k1 + krest == kept(renders_of(buffer + adm_rest, gzip), max_line).flatten());
            assert(buffer + adm_rest =~= buffer + kept(lines, max_line));
        }
    }
}

/// Law: while the admitted line count stays off the cap and the admitted
/// cumulative size stays below the payload cap, lines only accumulate
/// (oversized lines being dropped at intake).  No batch is built, so nothing
/// is sent until a flush is requested or the flush interval elapses.
pub proof fn lemma_no_flush_below_thresholds(
    buffer: Seq<Seq<u8>>,
    lines: Seq<Seq<u8>>,
    gzip: bool,
    max_lines: int,
    max_line: int,
    max_payload: int,
)
    requires
        max_payload <= usize::MAX,
        forall|j: int|
            1 <= j <= lines.len() ==> (buffer + kept(#[trigger] lines.take(j), max_line)).len()
                != max_lines && sum_lens(buffer + kept(lines.take(j), max_line)) < max_payload,
    ensures
        line_steps(buffer, lines, gzip, max_lines, max_line, max_payload) == (
            buffer + kept(lines, max_line),
            Seq::<Seq<u8>>::empty(),
        ),
    decreases lines.len(),
{
    if lines.len() == 0 {
        assert(kept(lines, max_line) =~= Seq::<Seq<u8>>::empty());
        assert(buffer + kept(lines, max_line) =~= buffer);
    } else {
        let first = lines.first();
        let rest = lines.drop_first();
        assert(lines.take(1) =~= seq![first]);
        assert(seq![first].drop_first() =~= Seq::<Seq<u8>>::empty());
        if first.len() <= max_line {
            let pushed = buffer.push(first);
            lemma_kept_singleton(first, max_line);
            assert(kept(lines.take(1), max_line) =~= seq![first]);
            assert(buffer + kept(lines.take(1), max_line) =~= pushed);
            assert(pushed.len() != max_lines && sum_lens(pushed) < max_payload);
            lemma_sum_lens_push(buffer, first);
            lemma_sum_lens_nonneg(buffer);
            assert(!line_overflows(buffer, first));
            assert(!needs_flush(pushed, max_lines, max_payload));
            assert(line_step(buffer, first, gzip, max_lines, max_line, max_payload) == (
                pushed,
                Seq::<Seq<u8>>::empty(),
            ));
            assert forall|j: int|
                1 <= j <= rest.len() implies (pushed + kept(#[trigger] rest.take(j), max_line))
                .len() != max_lines && sum_lens(pushed + kept(rest.take(j), max_line))
                < max_payload by {
                assert(lines.take(j + 1) =~= seq![first] + rest.take(j));
                lemma_kept_concat(seq![first], rest.take(j), max_line);
                lemma_kept_singleton(first, max_line);
                assert(pushed + kept(rest.take(j), max_line) =~= buffer + kept(
                    lines.take(j + 1),
                    max_line,
                ));
                assert((buffer + kept(lines.take(j + 1), max_line)).len() != max_lines && sum_lens(
                    buffer + kept(lines.take(j + 1), max_line),
                ) < max_payload);
            }
            lemma_no_flush_below_thresholds(pushed, rest, gzip, max_lines, max_line, max_payload);
            assert(lines =~= seq![first] + rest);
            lemma_kept_concat(seq![first], rest, max_line);
            assert(pushed + kept(rest, max_line) =~= buffer + kept(lines, max_line));
            assert(Seq::<Seq<u8>>::empty() + Seq::<Seq<u8>>::empty() =~= Seq::<Seq<u8>>::empty());
        } else {
            // Dropped at intake: the step changes nothing.
            assert(line_step(buffer, first, gzip, max_lines, max_line, max_payload) == (
                buffer,
                Seq::<Seq<u8>>::empty(),
            ));
            assert forall|j: int|
                1 <= j <= rest.len() implies (buffer + kept(#[trigger] rest.take(j), max_line))
                .len() != max_lines && sum_lens(buffer + kept(rest.take(j), max_line))
                < max_payload by {
                assert(lines.take(j + 1) =~= seq![first] + rest.take(j));
                lemma_kept_concat(seq![first], rest.take(j), max_line);
                lemma_kept_singleton(first, max_line);
                assert(buffer + kept(rest.take(j), max_line) =~= buffer + kept(
                    lines.take(j + 1),
                    max_line,
                ));
                assert((buffer + kept(lines.take(j + 1), max_line)).len() != max_lines && sum_lens(
                    buffer + kept(lines.take(j + 1), max_line),
                ) < max_payload);
            }
            lemma_no_flush_below_thresholds(buffer, rest, gzip, max_lines, max_line, max_payload);
            assert(lines =~= seq![first] + rest);
            lemma_kept_concat(seq![first], rest, max_line);
            assert(kept(lines, max_line) =~= kept(rest, max_line));
            assert(Seq::<Seq<u8>>::empty() + Seq::<Seq<u8>>::empty() =~= Seq::<Seq<u8>>::empty());
        }
    }
}

/// One poll of the line channel.
pub enum LinePoll {
    /// A line was accepted; these batches (often none) must now be posted.
    Received(Vec<Vec<u8>>),
    /// Nothing arrived within the poll timeout.
    Idle,
    /// Every adapter is gone: the loop should drain and stop.
    Closed,
}

/// The batches a line poll asks the embedder to post.
pub open spec fn line_poll_batches(r: &LinePoll) -> Seq<Seq<u8>> {
    match r {
        LinePoll::Received(batches) => batches.deep_view(),
        LinePoll::Idle => Seq::empty(),
        LinePoll::Closed => Seq::empty(),
    }
}

/// One poll of the flush-request channel.
pub enum FlushPoll {
    /// A flush was requested: post these batches, then report the outcome
    /// with `respond_flush`.
    Requested(Vec<Vec<u8>>),
    /// No request arrived within the poll timeout.
    Idle,
    /// Every adapter is gone: the loop should drain and stop.
    Closed,
}

/// The batches a flush poll asks the embedder to post.
pub open spec fn flush_poll_batches(r: &FlushPoll) -> Seq<Seq<u8>> {
    match r {
        FlushPoll::Requested(batches) => batches.deep_view(),
        FlushPoll::Idle => Seq::empty(),
        FlushPoll::Closed => Seq::empty(),
    }
}

/// The overall outcome of a flush's sends: `Ok` exactly when every send
/// succeeded, otherwise the first failure.
pub open spec fn combined_outcome(results: Seq<Result<(), Error>>) -> Result<(), Error>
    decreases results.len(),
{
    if results.len() == 0 {
        Ok(())
    } else if results.first() is Err {
        results.first()
    } else {
        combined_outcome(results.drop_first())
    }
}

/// The combined outcome is `Ok` exactly when every outcome is.
proof fn lemma_combined_outcome_ok(results: Seq<Result<(), Error>>)
    ensures
        combined_outcome(results) is Ok <==> (forall|i: int|
            0 <= i < results.len() ==> results[i] is Ok),
    decreases results.len(),
{
    if results.len() > 0 {
        let rest = results.drop_first();
        lemma_combined_outcome_ok(rest);
        assert(results.first() == results[0]);
        if combined_outcome(results) is Ok {
            assert forall|i: int| 0 <= i < results.len() implies results[i] is Ok by {
                if i > 0 {
                    assert(rest[i - 1] == results[i]);
                }
            }
        } else if !(results.first() is Err) {
            assert(!(combined_outcome(rest) is Ok));
            let j = choose|j: int| 0 <= j < rest.len() && !(rest[j] is Ok);
            assert(rest[j] == results[j + 1]);
            assert(!(results[j + 1] is Ok));
        }
    }
}

/// Combine the per-batch send outcomes of one flush into its result: `Ok`
/// exactly when every send succeeded, otherwise the first failure — every
/// batch having been attempted either way.
pub fn combine_send_outcomes(results: Vec<Result<(), Error>>) -> (r: Result<(), Error>)
    ensures
        r == combined_outcome(results@),
        r is Ok <==> (forall|i: int| 0 <= i < results@.len() ==> results@[i] is Ok),
{
    let ghost orig = results@;
    let mut results = results;
    let mut out: Result<(), Error> = Ok(());
    let mut i: usize = results.len();
    proof {
        assert(orig.skip(orig.len() as int) =~= Seq::<Result<(), Error>>::empty());
        assert(results@ =~= orig.take(i as int));
    }
    while i > 0
        invariant
            i <= orig.len(),
            results@ == orig.take(i as int),
            out == combined_outcome(orig.skip(i as int)),
        decreases i,
    {
        i = i - 1;
        let r = results.pop().unwrap();
        proof {
            assert(orig.take(i as int + 1).last() == orig[i as int]);
            assert(orig.take(i as int + 1).drop_last() =~= orig.take(i as int));
            assert(orig.skip(i as int).first() == orig[i as int]);
            assert(orig.skip(i as int).drop_first() =~= orig.skip(i as int + 1));
        }
        match r {
            Ok(u) => (),
            Err(e) => {
                out = Err(e);
            },
        }
    }
    proof {
        assert(orig.skip(0) =~= orig);
        lemma_combined_outcome_ok(orig);
    }
    out
}

/// The batching engine.  It owns the buffer; the embedder owns the loop that
/// drives it and posts what it hands back.
pub struct DataDogHttpWriter {
    /// DataDog api url.
    pub api_host: String,
    /// DataDog api key.
    pub api_key: String,
    /// Query parameters sent with every post.
    pub query: Vec<(String, String)>,
    /// Line count that forces a flush.
    pub max_log_lines: usize,
    /// Largest request body, in bytes.
    pub max_payload_size: usize,
    /// Largest single rendered line, in bytes.
    pub max_line_size: usize,
    /// Flush on this period in milliseconds; never when `None`.
    pub flush_interval: Option<i64>,
    /// When the buffer was last flushed, in milliseconds since the epoch.
    pub last_flushed: i64,
    /// Log line receiver.
    pub logs: flume::Receiver<String>,
    /// Flush request receiver.
    pub flush_request: flume::Receiver<()>,
    /// Flush response sender.
    pub flush_response: flume::Sender<Result<(), Error>>,
    /// Buffered lines, each as its bytes, in enqueue order.
    pub buffer_lines: Vec<Vec<u8>>,
    /// Total bytes buffered; always the sum of the buffered lines' lengths.
    pub buffer_size: usize,
    /// Whether each line of the body is compressed.
    pub gzip: bool,
}

/// Join the tag pairs as `k:v`, separated by commas.
fn join_tags(tags: &Vec<(String, String)>) -> (r: String)
    ensures
        r@ == joined_tags(tags.deep_view()),
{
    let mut out = String::new();
    let mut i: usize = 0;
    while i < tags.len()
        invariant
            i <= tags.len(),
            out@ == joined_tags(tags.deep_view().take(i as int)),
        decreases tags.len() - i,
    {
        if i > 0 {
            out.append(",");
        }
        out.append(tags[i].0.as_str());
        out.append(":");
        out.append(tags[i].1.as_str());
        proof {
            let dv = tags.deep_view();
            assert(dv[i as int] == (tags@[i as int].0@, tags@[i as int].1@));
            assert(dv.take(i as int + 1).drop_last() =~= dv.take(i as int));
            assert(dv.take(i as int + 1).last() == dv[i as int]);
            if i == 0 {
                assert(out@ =~= joined_tags(dv.take(1)));
            } else {
                assert(out@ =~= joined_tags(dv.take(i as int)) + ","@ + dv[i as int].0 + ":"@
                    + dv[i as int].1);
            }
        }
        i = i + 1;
    }
    proof {
        assert(tags.deep_view().take(tags@.len() as int) =~= tags.deep_view());
    }
    out
}

impl DataDogHttpWriter {
    /// The byte counter matches the buffered lines.
    pub open spec fn wf(&self) -> bool {
        self.buffer_size == sum_lens(self.buffer_lines.deep_view())
    }

    /// Everything but the buffer and the flush clock is shared with `other`.
    pub open spec fn same_config(&self, other: &Self) -> bool {
        &&& self.api_host == other.api_host
        &&& self.api_key == other.api_key
        &&& self.query == other.query
        &&& self.max_log_lines == other.max_log_lines
        &&& self.max_payload_size == other.max_payload_size
        &&& self.max_line_size == other.max_line_size
        &&& self.flush_interval == other.flush_interval
        &&& self.logs == other.logs
        &&& self.flush_request == other.flush_request
        &&& self.flush_response == other.flush_response
        &&& self.gzip == other.gzip
    }

    /// The buffered lines as byte sequences.
    pub open spec fn buffer(&self) -> Seq<Seq<u8>> {
        self.buffer_lines.deep_view()
    }

    /// Create a new [`DataDogHttpWriter`] around a configuration and its
    /// channel ends.  The flush clock starts at the current time.
    pub fn new(
        datadog_config: DataDogConfig,
        flush_interval: Option<i64>,
        logs: flume::Receiver<String>,
        flush_request: flume::Receiver<()>,
        flush_response: flume::Sender<Result<(), Error>>,
    ) -> (r: Self)
        ensures
            r.wf(),
            r.buffer() =~= Seq::<Seq<u8>>::empty(),
            r.buffer_size == 0,
            r.api_host@ == datadog_config.api_host@,
            r.api_key@ == datadog_config.api_key@,
            r.query.deep_view() == query_of(&datadog_config),
            r.max_log_lines == datadog_config.max_log_lines,
            r.max_payload_size == datadog_config.max_payload_size,
            r.max_line_size == datadog_config.max_line_size,
            r.flush_interval == flush_interval,
            r.logs == logs,
            r.flush_request == flush_request,
            r.flush_response == flush_response,
            r.gzip == datadog_config.gzip,
    {
        let tags_joined = join_tags(&datadog_config.tags);
        let mut query: Vec<(String, String)> = Vec::new();
        query.push((String::from_str("host"), datadog_config.hostname));
        query.push((String::from_str("service"), datadog_config.service));
        query.push((String::from_str("ddsource"), datadog_config.source));
        query.push((String::from_str("ddtags"), tags_joined));
        proof {
            assert(query.deep_view() =~= query_of(&datadog_config));
        }
        let writer = Self {
            api_host: datadog_config.api_host,
            api_key: datadog_config.api_key,
            query,
            max_log_lines: datadog_config.max_log_lines,
            max_payload_size: datadog_config.max_payload_size,
            max_line_size: datadog_config.max_line_size,
            flush_interval,
            last_flushed: now_millis(),
            logs,
            flush_request,
            flush_response,
            buffer_lines: Vec::new(),
            buffer_size: 0,
            gzip: datadog_config.gzip,
        };
        writer
    }

    /// Flush the buffer as of time `now`: build the batches for everything
    /// buffered, clear the buffer, and reset the flush clock.  Nothing
    /// happens on an empty buffer.
    pub fn flush_at(&mut self, now: i64) -> (batches: Vec<Vec<u8>>)
        requires
            old(self).wf(),
        ensures
            final(self).wf(),
            final(self).same_config(old(self)),
            old(self).buffer().len() == 0 ==> *final(self) == *old(self) && batches@.len() == 0,
            old(self).buffer().len() > 0 ==> batches.deep_view() == batches_of(
                renders_of(old(self).buffer(), old(self).gzip),
                old(self).max_line_size as int,
                old(self).max_payload_size as int,
            ) && final(self).buffer().len() == 0 && final(self).buffer_size == 0
                && final(self).last_flushed == now,
    {
        if self.buffer_lines.len() == 0 {
            Vec::new()
        } else {
            let batches = build_batches(
                &self.buffer_lines,
                self.gzip,
                self.max_line_size,
                self.max_payload_size,
            );
            self.buffer_lines = Vec::new();
            self.buffer_size = 0;
            self.last_flushed = now;
            proof {
                assert(self.buffer() =~= Seq::<Seq<u8>>::empty());
            }
            batches
        }
    }

    /// The buffer and batches of `line_step`, related to this writer pair.
    pub open spec fn line_outcome(
        pre: DataDogHttpWriter,
        post: DataDogHttpWriter,
        l: Seq<u8>,
        out: Seq<Seq<u8>>,
    ) -> bool {
        let (b2, o) = line_step(
            pre.buffer(),
            l,
            pre.gzip,
            pre.max_log_lines as int,
            pre.max_line_size as int,
            pre.max_payload_size as int,
        );
        post.buffer() == b2 && out == o
    }

    /// Accept one line, as its bytes, at time `now`.  A line whose byte
    /// length exceeds the line cap is dropped here, never buffered, and
    /// leaves the buffer, the counter and the flush clock untouched.
    /// Otherwise the buffer is flushed first if its byte counter would
    /// overflow, the line is appended, and the buffer is flushed again if it
    /// crossed the line-count or byte threshold.  The batches of every flush
    /// performed are returned, oldest first; they must now be posted.
    pub fn accept_line(&mut self, line: Vec<u8>, now: i64) -> (batches: Vec<Vec<u8>>)
        requires
            old(self).wf(),
        ensures
            final(self).wf(),
            final(self).same_config(old(self)),
            Self::line_outcome(*old(self), *final(self), line@, batches.deep_view()),
            line_step_flushes(
                old(self).buffer(),
                line@,
                old(self).max_log_lines as int,
                old(self).max_line_size as int,
                old(self).max_payload_size as int,
            ) ==> final(self).last_flushed == now,
            !line_step_flushes(
                old(self).buffer(),
                line@,
                old(self).max_log_lines as int,
                old(self).max_line_size as int,
                old(self).max_payload_size as int,
            ) ==> final(self).last_flushed == old(self).last_flushed,
    {
        let ghost b0 = self.buffer();
        if line.len() > self.max_line_size {
            // Dropped at intake: an oversized line is never buffered.
            let none: Vec<Vec<u8>> = Vec::new();
            proof {
                assert(none.deep_view() =~= Seq::<Seq<u8>>::empty());
            }
            return none;
        }
        let mut out: Vec<Vec<u8>> = Vec::new();
        proof {
            lemma_sum_lens_nonneg(b0);
        }
        if line.len() > usize::MAX - self.buffer_size {
            let mut b = self.flush_at(now);
            proof {
                assert(line_overflows(b0, line@));
                assert(b0.len() > 0);
            }
            out.append(&mut b);
            proof {
                assert(out.deep_view() =~~= batches_of(
                    renders_of(b0, self.gzip),
                    self.max_line_size as int,
                    self.max_payload_size as int,
                ));
            }
        }
        let ghost b1 = self.buffer();
        let ghost out1 = out.deep_view();
        proof {
            lemma_sum_lens_push(b1, line@);
        }
        self.buffer_size = self.buffer_size + line.len();
        self.buffer_lines.push(line);
        proof {
            assert(self.buffer() =~~= b1.push(line@));
        }
        let ghost b2 = self.buffer();
        if self.buffer_lines.len() == self.max_log_lines
            || self.buffer_size >= self.max_payload_size {
            proof {
                assert(needs_flush(b2, self.max_log_lines as int, self.max_payload_size as int));
            }
            let mut b = self.flush_at(now);
            out.append(&mut b);
            proof {
                assert(out.deep_view() =~~= out1 + batches_of(
                    renders_of(b2, self.gzip),
                    self.max_line_size as int,
                    self.max_payload_size as int,
                ));
            }
        } else {
            proof {
                assert(!needs_flush(b2, self.max_log_lines as int, self.max_payload_size as int));
            }
        }
        proof {
            let gz = self.gzip;
            let mlines = self.max_log_lines as int;
            let ml = self.max_line_size as int;
            let mp = self.max_payload_size as int;
            if line_overflows(b0, line@) {
                assert(b1 =~= Seq::<Seq<u8>>::empty());
                assert(out1 == batches_of(renders_of(b0, gz), ml, mp));
            } else {
                assert(b1 == b0);
                assert(out1 =~= Seq::<Seq<u8>>::empty());
            }
            assert(b2 == b1.push(line@));
            if needs_flush(b2, mlines, mp) {
                assert(self.buffer() =~= Seq::<Seq<u8>>::empty());
                assert(out.deep_view() == out1 + batches_of(renders_of(b2, gz), ml, mp));
            } else {
                assert(self.buffer() == b2);
                assert(out.deep_view() == out1);
            }
        }
        out
    }

    /// Append every drained line to the buffer — dropping lines over the
    /// line cap at intake and flushing first wherever the byte counter would
    /// overflow — then flush once if the buffer crossed a threshold.  The
    /// batches of every flush performed are returned, oldest first; they
    /// must now be posted.
    ///
    /// Whatever happened, the returned bodies and the renders still buffered
    /// together hold exactly the kept renders of the old buffer and the
    /// admitted drained lines, in order.
    pub fn drain_pending(&mut self, drained: Vec<String>, now: i64) -> (batches: Vec<Vec<u8>>)
        requires
            old(self).wf(),
        ensures
            final(self).wf(),
            final(self).same_config(old(self)),
            batches.deep_view().flatten() + kept(
                renders_of(final(self).buffer(), old(self).gzip),
                old(self).max_line_size as int,
            ).flatten() == kept(
                renders_of(
                    old(self).buffer() + admitted_lines(
                        drained.deep_view(),
                        old(self).max_line_size as int,
                    ),
                    old(self).gzip,
                ),
                old(self).max_line_size as int,
            ).flatten(),
            sum_lens(
                old(self).buffer() + admitted_lines(
                    drained.deep_view(),
                    old(self).max_line_size as int,
                ),
            ) <= usize::MAX ==> ({
                let all = old(self).buffer() + admitted_lines(
                    drained.deep_view(),
                    old(self).max_line_size as int,
                );
                if all.len() > 0 && needs_flush(
                    all,
                    old(self).max_log_lines as int,
                    old(self).max_payload_size as int,
                ) {
                    batches.deep_view() == batches_of(
                        renders_of(all, old(self).gzip),
                        old(self).max_line_size as int,
                        old(self).max_payload_size as int,
                    ) && final(self).buffer().len() == 0 && final(self).last_flushed == now
                } else {
                    final(self).buffer() == all && batches@.len() == 0 && final(self).last_flushed
                        == old(self).last_flushed
                }
            }),
            (old(self).buffer() + admitted_lines(
                drained.deep_view(),
                old(self).max_line_size as int,
            )).len() > 0 && final(self).buffer().len() == 0 ==> final(self).last_flushed == now,
            (old(self).buffer() + admitted_lines(
                drained.deep_view(),
                old(self).max_line_size as int,
            )).len() == 0 ==> *final(self) == *old(self) && batches@.len() == 0,
    {
        let ghost b0 = self.buffer();
        let ghost lines_all = lines_as_bytes(drained.deep_view());
        let ghost gz = self.gzip;
        let ghost ml = self.max_line_size as int;
        let ghost mp = self.max_payload_size as int;
        let ghost mlines = self.max_log_lines as int;
        let ghost all = b0 + kept(lines_all, ml);
        let mut out: Vec<Vec<u8>> = Vec::new();
        let mut i: usize = 0;
        proof {
            assert(lines_all.take(0) =~= Seq::<Seq<u8>>::empty());
            assert(b0 + kept(lines_all.take(0), ml) =~= b0);
            assert(out.deep_view() =~= Seq::<Seq<u8>>::empty());
        }
        while i < drained.len()
            invariant
                i <= drained.len(),
                self.wf(),
                self.same_config(old(self)),
                gz == old(self).gzip,
                ml == old(self).max_line_size as int,
                mp == old(self).max_payload_size as int,
                mlines == old(self).max_log_lines as int,
                b0 == old(self).buffer(),
                lines_all == lines_as_bytes(drained.deep_view()),
                all == b0 + kept(lines_all, ml),
                lines_all.len() == drained@.len(),
                out.deep_view().flatten() + kept(renders_of(self.buffer(), gz), ml).flatten()
                    == kept(renders_of(b0 + kept(lines_all.take(i as int), ml), gz), ml).flatten(),
                sum_lens(all) <= usize::MAX ==> out@.len() == 0 && self.buffer() == b0
                    + kept(lines_all.take(i as int), ml) && self.last_flushed == old(
                    self,
                ).last_flushed,
                (b0 + kept(lines_all.take(i as int), ml)).len() > 0 ==> self.buffer().len() > 0,
                all.len() == 0 ==> *self == *old(self) && out@.len() == 0,
            decreases drained.len() - i,
        {
            let bytes = drained[i].as_str().as_bytes_vec();
            let ghost lb = bytes@;
            proof {
                assert(drained.deep_view()[i as int] == drained@[i as int]@);
                assert(lines_all[i as int] == lb);
                assert(lines_all.take(i as int + 1) =~= lines_all.take(i as int) + seq![lb]);
                lemma_kept_concat(lines_all.take(i as int), seq![lb], ml);
                assert(seq![lb].drop_first() =~= Seq::<Seq<u8>>::empty());
            }
            if bytes.len() > self.max_line_size {
                // Dropped at intake: the admitted prefix does not grow.
                proof {
                    lemma_kept_singleton(lb, ml);
                    assert(kept(lines_all.take(i as int + 1), ml) =~= kept(
                        lines_all.take(i as int),
                        ml,
                    ));
                }
            } else {
                let ghost buf_a = self.buffer();
                let ghost out_a = out.deep_view();
                proof {
                    lemma_sum_lens_nonneg(buf_a);
                    lemma_kept_singleton(lb, ml);
                    assert(kept(lines_all.take(i as int + 1), ml) =~= kept(
                        lines_all.take(i as int),
                        ml,
                    ).push(lb));
                    // An admitted line makes the admitted whole non-empty.
                    assert(lines_all =~= lines_all.take(i as int + 1) + lines_all.skip(
                        i as int + 1,
                    ));
                    lemma_kept_concat(lines_all.take(i as int + 1), lines_all.skip(i as int + 1), ml);
                    assert(all.len() > 0);
                }
                if bytes.len() > usize::MAX - self.buffer_size {
                    let mut b = self.flush_at(now);
                    out.append(&mut b);
                    proof {
                        assert(line_overflows(buf_a, lb));
                        assert(buf_a.len() > 0);
                        assert(out.deep_view() =~~= out_a + batches_of(
                            renders_of(buf_a, gz),
                            ml,
                            mp,
                        ));
                        lemma_batched_flatten(renders_of(buf_a, gz), ml, mp, Seq::empty());
                        lemma_flatten_concat(out_a, batches_of(renders_of(buf_a, gz), ml, mp));
                        assert(Seq::<u8>::empty() + kept(renders_of(buf_a, gz), ml).flatten()
                            =~= kept(renders_of(buf_a, gz), ml).flatten());
                        assert(renders_of(self.buffer(), gz) =~= Seq::<Seq<u8>>::empty());
                        assert(out.deep_view().flatten() + kept(renders_of(self.buffer(), gz), ml)
                            .flatten() =~= kept(
                            renders_of(b0 + kept(lines_all.take(i as int), ml), gz),
                            ml,
                        ).flatten());
                        // A global overflow rules the exact branch out here.
                        if sum_lens(all) <= usize::MAX {
                            assert(seq![lb].drop_last() =~= Seq::<Seq<u8>>::empty());
                            assert(sum_lens(Seq::<Seq<u8>>::empty()) == 0);
                            assert(sum_lens(seq![lb]) == lb.len());
                            lemma_sum_lens_concat(
                                b0 + kept(lines_all.take(i as int), ml),
                                seq![lb],
                            );
                            assert((b0 + kept(lines_all.take(i as int), ml)) + seq![lb] =~= b0
                                + kept(lines_all.take(i as int + 1), ml));
                            lemma_sum_lens_concat(b0, kept(lines_all.take(i as int + 1), ml));
                            lemma_sum_lens_concat(b0, kept(lines_all, ml));
                            lemma_sum_lens_concat(
                                kept(lines_all.take(i as int + 1), ml),
                                kept(lines_all.skip(i as int + 1), ml),
                            );
                            lemma_sum_lens_nonneg(kept(lines_all.skip(i as int + 1), ml));
                            assert(false);
                        }
                    }
                }
                let ghost buf_b = self.buffer();
                proof {
                    lemma_sum_lens_push(buf_b, lb);
                }
                self.buffer_size = self.buffer_size + bytes.len();
                self.buffer_lines.push(bytes);
                proof {
                    assert(self.buffer() =~~= buf_b.push(lb));
                    // The kept renders grow by this line's render on both sides.
                    assert(buf_b.push(lb) =~= buf_b + seq![lb]);
                    lemma_renders_concat(buf_b, seq![lb], gz);
                    lemma_kept_concat(renders_of(buf_b, gz), renders_of(seq![lb], gz), ml);
                    lemma_flatten_concat(
                        kept(renders_of(buf_b, gz), ml),
                        kept(renders_of(seq![lb], gz), ml),
                    );
                    let prefix = b0 + kept(lines_all.take(i as int), ml);
                    assert(prefix.push(lb) =~= b0 + kept(lines_all.take(i as int + 1), ml));
                    lemma_renders_concat(prefix, seq![lb], gz);
                    lemma_kept_concat(renders_of(prefix, gz), renders_of(seq![lb], gz), ml);
                    lemma_flatten_concat(
                        kept(renders_of(prefix, gz), ml),
                        kept(renders_of(seq![lb], gz), ml),
                    );
                    assert(prefix + seq![lb] =~= prefix.push(lb));
                    if sum_lens(all) <= usize::MAX {
                        assert(self.buffer() =~= b0 + kept(lines_all.take(i as int + 1), ml));
                    }
                }
            }
            i = i + 1;
        }
        proof {
            assert(lines_all.take(drained@.len() as int) =~= lines_all);
        }
        let ghost buf_c = self.buffer();
        let ghost out_c = out.deep_view();
        if self.buffer_lines.len() == self.max_log_lines
            || self.buffer_size >= self.max_payload_size {
            proof {
                assert(needs_flush(buf_c, mlines, mp));
            }
            let mut b = self.flush_at(now);
            out.append(&mut b);
            proof {
                if buf_c.len() > 0 {
                    assert(out.deep_view() =~~= out_c + batches_of(renders_of(buf_c, gz), ml, mp));
                    lemma_batched_flatten(renders_of(buf_c, gz), ml, mp, Seq::empty());
                    lemma_flatten_concat(out_c, batches_of(renders_of(buf_c, gz), ml, mp));
                    assert(Seq::<u8>::empty() + kept(renders_of(buf_c, gz), ml).flatten() =~= kept(
                        renders_of(buf_c, gz),
                        ml,
                    ).flatten());
                    assert(renders_of(self.buffer(), gz) =~= Seq::<Seq<u8>>::empty());
                } else {
                    assert(out.deep_view() =~~= out_c);
                }
            }
        } else {
            proof {
                assert(!needs_flush(buf_c, mlines, mp));
            }
        }
        proof {
            if sum_lens(all) <= usize::MAX {
                assert(buf_c == all);
                if all.len() > 0 && needs_flush(all, mlines, mp) {
                    assert(out.deep_view() =~~= Seq::<Seq<u8>>::empty() + batches_of(
                        renders_of(all, gz),
                        ml,
                        mp,
                    ));
                    assert(Seq::<Seq<u8>>::empty() + batches_of(renders_of(all, gz), ml, mp) =~= (
                    batches_of(renders_of(all, gz), ml, mp)));
                }
            }
        }
        out
    }

    /// Flush as of `now` when a flush interval is configured and has elapsed
    /// since the last flush; otherwise leave everything untouched.
    pub fn time_flush_at(&mut self, now: i64) -> (batches: Vec<Vec<u8>>)
        requires
            old(self).wf(),
        ensures
            final(self).wf(),
            final(self).same_config(old(self)),
            (match old(self).flush_interval {
                Option::None => *final(self) == *old(self) && batches@.len() == 0,
                Option::Some(iv) => if now <= old(self).last_flushed + iv
                    || old(self).buffer().len() == 0 {
                    *final(self) == *old(self) && batches@.len() == 0
                } else {
                    batches.deep_view() == batches_of(
                        renders_of(old(self).buffer(), old(self).gzip),
                        old(self).max_line_size as int,
                        old(self).max_payload_size as int,
                    ) && final(self).buffer().len() == 0 && final(self).last_flushed == now
                },
            }),
    {
        match self.flush_interval {
            Option::None => Vec::new(),
            Option::Some(iv) => {
                if (now as i128) > (self.last_flushed as i128) + (iv as i128) {
                    self.flush_at(now)
                } else {
                    Vec::new()
                }
            },
        }
    }

    /// The outcome of `time_flush_at` as of clock reading `now`, related to
    /// this writer pair.
    pub open spec fn time_outcome(
        pre: DataDogHttpWriter,
        post: DataDogHttpWriter,
        now: int,
        out: Seq<Seq<u8>>,
    ) -> bool {
        match pre.flush_interval {
            Option::None => post == pre && out.len() == 0,
            Option::Some(iv) => if now <= pre.last_flushed + iv || pre.buffer().len() == 0 {
                post == pre && out.len() == 0
            } else {
                out == batches_of(
                    renders_of(pre.buffer(), pre.gzip),
                    pre.max_line_size as int,
                    pre.max_payload_size as int,
                ) && post.buffer().len() == 0 && post.last_flushed == now
            },
        }
    }

    /// Flush now when the configured flush interval has elapsed.  The clock
    /// is read here, so no more is promised than `time_flush_at` gives for
    /// some reading of it.
    pub fn time_based_flush(&mut self) -> (batches: Vec<Vec<u8>>)
        requires
            old(self).wf(),
        ensures
            final(self).wf(),
            final(self).same_config(old(self)),
            old(self).flush_interval is None ==> *final(self) == *old(self) && batches@.len()
                == 0,
            exists|now: int|
                Self::time_outcome(*old(self), *final(self), now, batches.deep_view()),
    {
        let now = now_millis();
        let batches = self.time_flush_at(now);
        proof {
            assert(Self::time_outcome(*old(self), *self, now as int, batches.deep_view()));
        }
        batches
    }

    /// Poll the line channel once, waiting up to the poll timeout, and accept
    /// whatever arrives.  The batches of any flush this caused must now be
    /// posted.
    pub fn receive_logs(&mut self) -> (r: LinePoll)
        requires
            old(self).wf(),
        ensures
            final(self).wf(),
            final(self).same_config(old(self)),
            r is Received ==> exists|l: Seq<u8>|
                Self::line_outcome(*old(self), *final(self), l, line_poll_batches(&r)),
            !(r is Received) ==> *final(self) == *old(self),
    {
        match recv_line_timeout(&self.logs, POLL_TIMEOUT_MS) {
            ChannelRead::Item(line) => {
                let bytes = line.as_str().as_bytes_vec();
                let ghost lb = bytes@;
                let now = now_millis();
                let batches = self.accept_line(bytes, now);
                let r = LinePoll::Received(batches);
                proof {
                    assert(Self::line_outcome(*old(self), *self, lb, line_poll_batches(&r)));
                }
                r
            },
            ChannelRead::Empty => LinePoll::Idle,
            ChannelRead::Closed => LinePoll::Closed,
        }
    }

    /// Handle one flush request at time `now`, with `drained` the lines that
    /// were still waiting in the channel: everything within the line cap is
    /// appended to the buffer and the buffer is flushed whole, so the
    /// request covers every admitted line enqueued before it.  The returned
    /// batches must now be posted, and the outcome reported with
    /// `respond_flush`.
    pub fn handle_flush_request(&mut self, drained: Vec<String>, now: i64) -> (batches: Vec<
        Vec<u8>,
    >)
        requires
            old(self).wf(),
        ensures
            final(self).wf(),
            final(self).same_config(old(self)),
            final(self).buffer().len() == 0,
            batches.deep_view().flatten() == kept(
                renders_of(
                    old(self).buffer() + admitted_lines(
                        drained.deep_view(),
                        old(self).max_line_size as int,
                    ),
                    old(self).gzip,
                ),
                old(self).max_line_size as int,
            ).flatten(),
            sum_lens(
                old(self).buffer() + admitted_lines(
                    drained.deep_view(),
                    old(self).max_line_size as int,
                ),
            ) <= usize::MAX ==> batches.deep_view() == batches_of(
                renders_of(
                    old(self).buffer() + admitted_lines(
                        drained.deep_view(),
                        old(self).max_line_size as int,
                    ),
                    old(self).gzip,
                ),
                old(self).max_line_size as int,
                old(self).max_payload_size as int,
            ),
            (old(self).buffer() + admitted_lines(
                drained.deep_view(),
                old(self).max_line_size as int,
            )).len() > 0 ==> final(self).last_flushed == now,
            (old(self).buffer() + admitted_lines(
                drained.deep_view(),
                old(self).max_line_size as int,
            )).len() == 0 ==> *final(self) == *old(self) && batches@.len() == 0,
    {
        let ghost b0 = self.buffer();
        let ghost lines_all = lines_as_bytes(drained.deep_view());
        let ghost ml0 = self.max_line_size as int;
        let ghost all = b0 + kept(lines_all, ml0);
        let ghost gz = self.gzip;
        let ghost ml = self.max_line_size as int;
        let ghost mp = self.max_payload_size as int;
        let mut out = self.drain_pending(drained, now);
        let ghost out1 = out.deep_view();
        let ghost buf1 = self.buffer();
        let mut rest = self.flush_at(now);
        out.append(&mut rest);
        proof {
            if buf1.len() > 0 {
                assert(out.deep_view() =~~= out1 + batches_of(renders_of(buf1, gz), ml, mp));
                lemma_batched_flatten(renders_of(buf1, gz), ml, mp, Seq::empty());
                lemma_flatten_concat(out1, batches_of(renders_of(buf1, gz), ml, mp));
                assert(Seq::<u8>::empty() + kept(renders_of(buf1, gz), ml).flatten() =~= kept(
                    renders_of(buf1, gz),
                    ml,
                ).flatten());
            } else {
                assert(out.deep_view() =~~= out1);
                assert(renders_of(buf1, gz) =~= Seq::<Seq<u8>>::empty());
                assert(kept(renders_of(buf1, gz), ml).flatten() =~= Seq::<u8>::empty());
                assert(out1.flatten() + Seq::<u8>::empty() =~= out1.flatten());
            }
            if sum_lens(all) <= usize::MAX {
                if all.len() > 0 && needs_flush(all, self.max_log_lines as int, mp) {
                    assert(out.deep_view() =~~= batches_of(renders_of(all, gz), ml, mp));
                } else if all.len() > 0 {
                    assert(buf1 == all);
                    assert(out1 =~= Seq::<Seq<u8>>::empty());
                    assert(out.deep_view() =~~= Seq::<Seq<u8>>::empty() + batches_of(
                        renders_of(all, gz),
                        ml,
                        mp,
                    ));
                    assert(Seq::<Seq<u8>>::empty() + batches_of(renders_of(all, gz), ml, mp) =~= (
                    batches_of(renders_of(all, gz), ml, mp)));
                } else {
                    assert(batches_of(renders_of(all, gz), ml, mp) =~= Seq::<Seq<u8>>::empty());
                    assert(out.deep_view() =~~= Seq::<Seq<u8>>::empty());
                }
            }
        }
        out
    }

    /// Poll the flush-request channel once, waiting up to half the poll
    /// timeout.  On a request the line channel is drained first, so the
    /// flush covers everything within the line cap enqueued before the
    /// request, and the buffer is flushed whole.  The returned batches must
    /// be posted and the outcome then reported with `respond_flush`.
    pub fn receive_flush(&mut self) -> (r: FlushPoll)
        requires
            old(self).wf(),
        ensures
            final(self).wf(),
            final(self).same_config(old(self)),
            r is Requested ==> final(self).buffer().len() == 0,
            r is Requested ==> exists|drained: Seq<Seq<u8>>|
                flush_poll_batches(&r).flatten() == kept(
                    renders_of(old(self).buffer() + drained, old(self).gzip),
                    old(self).max_line_size as int,
                ).flatten(),
            !(r is Requested) ==> *final(self) == *old(self),
    {
        match recv_flush_timeout(&self.flush_request, POLL_TIMEOUT_MS / 2) {
            ChannelRead::Item(_) => {
                let drained = drain_lines(&self.logs);
                let ghost drained_bytes = admitted_lines(
                    drained.deep_view(),
                    self.max_line_size as int,
                );
                let now = now_millis();
                let batches = self.handle_flush_request(drained, now);
                let r = FlushPoll::Requested(batches);
                proof {
                    assert(flush_poll_batches(&r).flatten() == kept(
                        renders_of(old(self).buffer() + drained_bytes, old(self).gzip),
                        old(self).max_line_size as int,
                    ).flatten());
                }
                r
            },
            ChannelRead::Empty => FlushPoll::Idle,
            ChannelRead::Closed => FlushPoll::Closed,
        }
    }

    /// Report a requested flush's outcome to the caller blocked on it.
    pub fn respond_flush(&self, result: Result<(), Error>) -> (r: Result<(), Error>)
        ensures
            r is Ok || r matches Err(Error::ChannelError(_)),
    {
        if send_flush_response(&self.flush_response, result) {
            Ok(())
        } else {
            Err(Error::ChannelError(String::from_str("the flush caller is gone")))
        }
    }

    /// Drain the line channel into the buffer, flushing on the thresholds,
    /// as on loop exit.  The returned batches must now be posted; whatever
    /// was drained, nothing kept is lost: the batches and the renders still
    /// buffered together hold the kept renders of the old buffer and the
    /// admitted drained lines, in order.
    pub fn drain(&mut self) -> (batches: Vec<Vec<u8>>)
        requires
            old(self).wf(),
        ensures
            final(self).wf(),
            final(self).same_config(old(self)),
            exists|drained: Seq<Seq<u8>>|
                batches.deep_view().flatten() + kept(
                    renders_of(final(self).buffer(), old(self).gzip),
                    old(self).max_line_size as int,
                ).flatten() == kept(
                    renders_of(old(self).buffer() + drained, old(self).gzip),
                    old(self).max_line_size as int,
                ).flatten(),
    {
        let drained = drain_lines(&self.logs);
        let ghost drained_bytes = admitted_lines(drained.deep_view(), self.max_line_size as int);
        let now = now_millis();
        let batches = self.drain_pending(drained, now);
        proof {
            assert(batches.deep_view().flatten() + kept(
                renders_of(self.buffer(), old(self).gzip),
                old(self).max_line_size as int,
            ).flatten() == kept(
                renders_of(old(self).buffer() + drained_bytes, old(self).gzip),
                old(self).max_line_size as int,
            ).flatten());
        }
        batches
    }

    /// Flush the buffer now.
    pub fn flush(&mut self) -> (batches: Vec<Vec<u8>>)
        requires
            old(self).wf(),
        ensures
            final(self).wf(),
            final(self).same_config(old(self)),
            old(self).buffer().len() == 0 ==> *final(self) == *old(self) && batches@.len() == 0,
            old(self).buffer().len() > 0 ==> batches.deep_view() == batches_of(
                renders_of(old(self).buffer(), old(self).gzip),
                old(self).max_line_size as int,
                old(self).max_payload_size as int,
            ) && final(self).buffer().len() == 0,
    {
        let now = now_millis();
        self.flush_at(now)
    }
}

} // verus!
