use flexi_logger_datadog::adapter::format_line;
use flexi_logger_datadog::config::DataDogConfigBuilder;
use flexi_logger_datadog::error::Error;
use flexi_logger_datadog::new_datadog_http_logger;

fn pipeline() -> (
    flexi_logger_datadog::adapter::DataDogAdapter,
    flexi_logger_datadog::writer::DataDogHttpWriter,
) {
    let config = DataDogConfigBuilder::new(
        "host".to_string(),
        "test".to_string(),
        "dummy_key".to_string(),
    )
    .build();
    new_datadog_http_logger(config, None)
}

#[test]
fn format_line_shapes_the_record() {
    let line = format_line("DEBUG", "", "this is a test");
    assert_eq!(line, "DEBUG [] this is a test");
    let line = format_line("INFO", "app::svc", "ready");
    assert_eq!(line, "INFO [app::svc] ready");
}

#[test]
fn write_enqueues_while_writer_lives() {
    let (adapter, _writer) = pipeline();
    assert!(adapter.write("DEBUG", "", "this is a test").is_ok());
}

#[test]
fn write_fails_once_writer_is_gone() {
    let (adapter, writer) = pipeline();
    drop(writer);
    match adapter.write("DEBUG", "", "this is a test") {
        Err(Error::ChannelError(_)) => (),
        _ => panic!("expected a channel error"),
    }
}

#[test]
fn operations_fail_fast_after_shutdown() {
    let (mut adapter, writer) = pipeline();
    drop(writer);
    adapter.shutdown();
    match adapter.write("DEBUG", "", "this is a test") {
        Err(Error::AdapterShutdownError) => (),
        _ => panic!("expected the shutdown error"),
    }
    match adapter.flush() {
        Err(Error::AdapterShutdownError) => (),
        _ => panic!("expected the shutdown error"),
    }
}

#[test]
fn shutdown_twice_is_harmless() {
    let (mut adapter, writer) = pipeline();
    drop(writer);
    adapter.shutdown();
    adapter.shutdown();
    match adapter.write("DEBUG", "", "this is a test") {
        Err(Error::AdapterShutdownError) => (),
        _ => panic!("expected the shutdown error"),
    }
}

#[test]
fn error_messages_name_the_failure() {
    assert_eq!(Error::AdapterShutdownError.message(), "Adapter is shut down");
    assert_eq!(Error::HttpError("boom".to_string()).message(), "Http Error");
    assert_eq!(Error::IOError("boom".to_string()).message(), "IO Error");
    assert_eq!(Error::LockError("boom".to_string()).message(), "Lock Error");
    assert_eq!(
        Error::ChannelError("boom".to_string()).message(),
        "Channel communication error"
    );
}
