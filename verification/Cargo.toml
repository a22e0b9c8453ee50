[package]
name = "rustgi"
version = "0.1.0"
edition = "2021"
publish = false

[dependencies]
anyhow = "1"
bytes = "1"
encoding = "0.2"
event-listener = "2"
futures = "0.3"
http = "1"
http-body-util = "0.1"
hyper = { version = "1", features = ["http1", "http2", "server"] }
hyper-util = { version = "0.1", features = ["http1", "http2", "server", "server-auto", "service", "tokio"] }
lazy_static = "1"
log = "0.4"
mio = { version = "0.8", features = ["net", "os-poll"] }
pyo3 = { version = "0.22", features = ["abi3-py38", "extension-module"] }
pyo3-log = "0.11"
rayon = "1"
tokio = { version = "1", features = ["io-util", "macros", "net", "rt", "signal", "time"] }
tokio-rayon = "2"
tokio-rustls = { version = "0.26", default-features = false }
tower = { version = "0.4", features = ["util"] }
tracing = "0.1"
urlencoding = "2"
