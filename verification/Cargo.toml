[package]
name = "virtmcu"
version = "0.1.0"
edition = "2021"
publish = false

[dependencies]
anyhow = "1"
byteorder = "=1.5.0"
clap = { version = "4", features = ["derive", "env"] }
futures = "0.3"
glob = "0.3"
ignore = "0.4"
libc = "0.2"
mcap = "=0.26.0"
memmap2 = "0.9"
object = "=0.36.7"
opentelemetry = { version = "=0.27.1", features = ["logs", "trace"] }
opentelemetry-appender-tracing = { version = "0.27", default-features = false }
opentelemetry-otlp = { version = "0.27", default-features = false, features = ["grpc-tonic", "logs", "trace"] }
opentelemetry_sdk = { version = "=0.27.1", features = ["logs", "rt-tokio", "trace"] }
proc-macro2 = { version = "1", features = ["span-locations"] }
quote = "1"
rand = "=0.8.8"
rand_chacha = "=0.3.1"
regex = "=1.13.1"
serde = { version = "1", features = ["derive"] }
serde_json = "=1.0.154"
serde_yaml = "0.9"
shellexpand = "=3.1.2"
syn = { version = "2", features = ["full", "visit", "extra-traits"] }
tempfile = "3"
tokio = { version = "1", features = ["full"] }
tracing = "0.1"
tracing-opentelemetry = { version = "0.28", default-features = false }
tracing-subscriber = { version = "0.3", features = ["env-filter"] }
zenoh = { version = "=1.10.2", default-features = false, features = ["transport_tcp", "transport_unixsock-stream", "unstable"] }
