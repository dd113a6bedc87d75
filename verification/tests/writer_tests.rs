use flexi_logger_datadog::batch::render_line;
use flexi_logger_datadog::config::DataDogConfigBuilder;
use flexi_logger_datadog::new_datadog_http_logger;
use std::io::Read;
use flexi_logger_datadog::error::Error;
use flexi_logger_datadog::writer::combine_send_outcomes;
use flexi_logger_datadog::writer::DataDogHttpWriter;
use flexi_logger_datadog::writer::FlushPoll;
use flexi_logger_datadog::writer::LinePoll;

fn plain_config() -> DataDogConfigBuilder {
    let mut builder = DataDogConfigBuilder::new(
        "host".to_string(),
        "test".to_string(),
        "dummy_key".to_string(),
    );
    builder.with_tags(vec![("test_key".to_string(), "test_value".to_string())]);
    builder.with_gzip(Some(false));
    builder
}

fn plain_writer(flush_interval: Option<i64>) -> DataDogHttpWriter {
    let (_adapter, writer) = new_datadog_http_logger(plain_config().build(), flush_interval);
    writer
}

#[test]
fn writer_query_from_config() {
    let writer = plain_writer(None);
    assert_eq!(
        writer.query,
        vec![
            ("host".to_string(), "host".to_string()),
            ("service".to_string(), "test".to_string()),
            ("ddsource".to_string(), "rust".to_string()),
            ("ddtags".to_string(), "test_key:test_value".to_string()),
        ]
    );
    assert_eq!(
        writer.api_host,
        "https://http-intake.logs.datadoghq.com/api/v2/logs"
    );
    assert_eq!(writer.api_key, "dummy_key");
}

#[test]
fn writer_joins_several_tags() {
    let mut builder = plain_config();
    builder.with_tags(vec![
        ("a".to_string(), "1".to_string()),
        ("b".to_string(), "2".to_string()),
    ]);
    let (_adapter, writer) = new_datadog_http_logger(builder.build(), None);
    assert_eq!(writer.query[3].1, "a:1,b:2");
}

#[test]
fn lines_accumulate_below_thresholds() {
    let mut writer = plain_writer(None);
    let batches = writer.accept_line(b"hello".to_vec(), 10);
    assert!(batches.is_empty());
    assert_eq!(writer.buffer_lines, vec![b"hello".to_vec()]);
    assert_eq!(writer.buffer_size, 5);
    let batches = writer.accept_line(b"world".to_vec(), 20);
    assert!(batches.is_empty());
    assert_eq!(writer.buffer_size, 10);
}

#[test]
fn byte_threshold_triggers_flush() {
    let mut builder = plain_config();
    builder.with_max_payload_size(Some(4));
    let (_adapter, mut writer) = new_datadog_http_logger(builder.build(), None);
    let batches = writer.accept_line(b"hello".to_vec(), 42);
    assert_eq!(batches, vec![b"hello\n".to_vec()]);
    assert!(writer.buffer_lines.is_empty());
    assert_eq!(writer.buffer_size, 0);
    assert_eq!(writer.last_flushed, 42);
}

#[test]
fn line_count_threshold_triggers_flush() {
    let mut builder = plain_config();
    builder.with_max_log_lines(Some(2));
    let (_adapter, mut writer) = new_datadog_http_logger(builder.build(), None);
    assert!(writer.accept_line(b"one".to_vec(), 1).is_empty());
    let batches = writer.accept_line(b"two".to_vec(), 2);
    assert_eq!(batches, vec![b"one\ntwo\n".to_vec()]);
    assert!(writer.buffer_lines.is_empty());
}

#[test]
fn interval_elapsing_flushes_once() {
    let mut writer = plain_writer(Some(100));
    assert!(writer.accept_line(b"this is a test".to_vec(), 0).is_empty());
    let last = writer.last_flushed;
    // Not yet due: half the interval has passed.
    assert!(writer.time_flush_at(last + 50).is_empty());
    assert_eq!(writer.last_flushed, last);
    // Due: the single buffered line goes out, exactly once.
    let batches = writer.time_flush_at(last + 150);
    assert_eq!(batches, vec![b"this is a test\n".to_vec()]);
    assert_eq!(writer.last_flushed, last + 150);
    // Nothing left: a later tick sends nothing.
    assert!(writer.time_flush_at(last + 300).is_empty());
}

#[test]
fn no_interval_never_time_flushes() {
    let mut writer = plain_writer(None);
    assert!(writer.accept_line(b"line".to_vec(), 0).is_empty());
    assert!(writer.time_flush_at(i64::MAX).is_empty());
    assert_eq!(writer.buffer_lines.len(), 1);
}

#[test]
fn flush_covers_buffer_and_drained_lines() {
    let mut writer = plain_writer(None);
    assert!(writer.accept_line(b"early".to_vec(), 0).is_empty());
    let drained = vec!["late one".to_string(), "late two".to_string()];
    let batches = writer.handle_flush_request(drained, 9);
    let joined: Vec<u8> = batches.concat();
    assert_eq!(joined, b"early\nlate one\nlate two\n".to_vec());
    assert!(writer.buffer_lines.is_empty());
    assert_eq!(writer.last_flushed, 9);
    // A second request with nothing new sends nothing again.
    let batches = writer.handle_flush_request(Vec::new(), 10);
    assert!(batches.is_empty());
}

#[test]
fn drain_pending_respects_thresholds() {
    let mut builder = plain_config();
    builder.with_max_payload_size(Some(8));
    let (_adapter, mut writer) = new_datadog_http_logger(builder.build(), None);
    // Below the cap: the drained lines only accumulate.
    let batches = writer.drain_pending(vec!["abc".to_string()], 5);
    assert!(batches.is_empty());
    assert_eq!(writer.buffer_lines, vec![b"abc".to_vec()]);
    // Crossing the cap on the final check flushes everything drained; the
    // two renders together would exceed the cap, so they split.
    let batches = writer.drain_pending(vec!["defgh".to_string()], 6);
    assert_eq!(batches, vec![b"abc\n".to_vec(), b"defgh\n".to_vec()]);
    assert!(writer.buffer_lines.is_empty());
}

#[test]
fn flush_empties_the_buffer() {
    let mut writer = plain_writer(None);
    assert!(writer.accept_line(b"a line".to_vec(), 0).is_empty());
    let batches = writer.flush_at(3);
    assert_eq!(batches, vec![b"a line\n".to_vec()]);
    assert_eq!(writer.last_flushed, 3);
    // An empty buffer flushes to nothing and keeps the clock.
    assert!(writer.flush_at(4).is_empty());
    assert_eq!(writer.last_flushed, 3);
}

#[test]
fn receive_logs_sees_written_line() {
    let (adapter, mut writer) = new_datadog_http_logger(plain_config().build(), None);
    adapter.write("DEBUG", "", "this is a test").unwrap();
    match writer.receive_logs() {
        LinePoll::Received(batches) => assert!(batches.is_empty()),
        _ => panic!("expected a received line"),
    }
    assert_eq!(writer.buffer_lines, vec![b"DEBUG [] this is a test".to_vec()]);
    let batches = writer.flush();
    assert_eq!(batches, vec![b"DEBUG [] this is a test\n".to_vec()]);
}

#[test]
fn oversized_line_dropped_at_intake() {
    let mut builder = plain_config();
    builder.with_max_line_size(Some(10));
    let (_adapter, mut writer) = new_datadog_http_logger(builder.build(), None);
    let before = writer.last_flushed;
    let batches = writer.accept_line(vec![b'x'; 50], 7);
    assert!(batches.is_empty());
    assert!(writer.buffer_lines.is_empty());
    assert_eq!(writer.buffer_size, 0);
    assert_eq!(writer.last_flushed, before);
    // A later line is unaffected and goes out on its own.
    assert!(writer.accept_line(b"ok".to_vec(), 8).is_empty());
    let batches = writer.flush_at(9);
    assert_eq!(batches, vec![b"ok\n".to_vec()]);
}

#[test]
fn drain_drops_oversized_lines_at_intake() {
    let mut builder = plain_config();
    builder.with_max_line_size(Some(4));
    let (_adapter, mut writer) = new_datadog_http_logger(builder.build(), None);
    let batches = writer.drain_pending(
        vec!["ab".to_string(), "toolong".to_string(), "cd".to_string()],
        5,
    );
    assert!(batches.is_empty());
    assert_eq!(writer.buffer_lines, vec![b"ab".to_vec(), b"cd".to_vec()]);
    assert_eq!(writer.buffer_size, 4);
    let batches = writer.handle_flush_request(Vec::new(), 6);
    let joined: Vec<u8> = batches.concat();
    assert_eq!(joined, b"ab\ncd\n".to_vec());
}

#[test]
fn send_outcomes_combine_to_first_failure() {
    assert!(combine_send_outcomes(Vec::new()).is_ok());
    assert!(combine_send_outcomes(vec![Ok(()), Ok(())]).is_ok());
    let mixed: Vec<Result<(), Error>> = vec![
        Ok(()),
        Err(Error::HttpError("first".to_string())),
        Err(Error::HttpError("second".to_string())),
    ];
    match combine_send_outcomes(mixed) {
        Err(Error::HttpError(m)) => assert_eq!(m, "first"),
        _ => panic!("expected the first failure"),
    }
}

#[test]
fn gzip_writer_compresses_each_line() {
    let mut builder = plain_config();
    builder.with_gzip(Some(true));
    let (_adapter, mut writer) = new_datadog_http_logger(builder.build(), None);
    assert!(writer.accept_line(b"this is a test".to_vec(), 0).is_empty());
    let batches = writer.flush_at(1);
    assert_eq!(batches.len(), 1);
    assert_eq!(batches[0], render_line(&b"this is a test".to_vec(), true));
    let mut decoder = flate2::read::GzDecoder::new(&batches[0][..]);
    let mut plain = Vec::new();
    decoder.read_to_end(&mut plain).unwrap();
    assert_eq!(plain, b"this is a test\n".to_vec());
}

#[test]
fn receive_logs_reports_closed_channel() {
    let (adapter, mut writer) = new_datadog_http_logger(plain_config().build(), None);
    drop(adapter);
    match writer.receive_logs() {
        LinePoll::Closed => (),
        _ => panic!("expected a closed channel"),
    }
}

#[test]
fn polls_are_idle_while_producers_are_quiet() {
    let (adapter, mut writer) = new_datadog_http_logger(plain_config().build(), None);
    match writer.receive_logs() {
        LinePoll::Idle => (),
        _ => panic!("expected an idle line poll"),
    }
    match writer.receive_flush() {
        FlushPoll::Idle => (),
        _ => panic!("expected an idle flush poll"),
    }
    drop(adapter);
}

#[test]
fn respond_without_caller_reports_channel_error() {
    let (adapter, writer) = new_datadog_http_logger(plain_config().build(), None);
    drop(adapter);
    match writer.respond_flush(Ok(())) {
        Err(Error::ChannelError(_)) => (),
        _ => panic!("expected a channel error"),
    }
}

#[test]
fn closed_channel_loses_no_buffered_line() {
    // The loop-exit path: producers gone, yet everything enqueued still goes
    // out in one final drain and flush.
    let (adapter, mut writer) = new_datadog_http_logger(plain_config().build(), None);
    adapter.write("DEBUG", "", "this is a test").unwrap();
    drop(adapter);
    let batches = writer.drain();
    assert!(batches.is_empty());
    match writer.receive_logs() {
        LinePoll::Closed => (),
        _ => panic!("expected a closed channel"),
    }
    let batches = writer.flush();
    assert_eq!(batches, vec![b"DEBUG [] this is a test\n".to_vec()]);
}
