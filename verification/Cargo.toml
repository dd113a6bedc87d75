[package]
name = "flexi_logger_datadog"
version = "0.1.0"
edition = "2021"
publish = false

[dependencies]
chrono = "=0.4.45"
flate2 = "=1.1.10"
flexi_logger = "=0.31.10"
flume = "=0.12.0"
futures = "=0.3.34"
log = "=0.4.34"
reqwest = { version = "=0.13.5", default-features = false, features = ["query"] }
thiserror = "=2.0.21"
tokio = { version = "=1.53.2", features = ["rt"] }
