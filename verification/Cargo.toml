[package]
name = "seele"
version = "0.1.0"
edition = "2021"
publish = false

[dependencies]
anyhow = "1"
async-channel = "1"
chrono = { version = "0.4", default-features = false, features = ["clock", "std", "serde"] }
ciborium = "0.2"
futures-util = "0.3"
hyper = { version = "0.14", features = ["server", "http1", "tcp", "stream"] }
libcgroups = { version = "*", default-features = false, features = ["v2"] }
nano-id = { version = "*", features = ["base62"] }
num_cpus = "1"
once_cell = "1"
quick-js = "0.4"
ring-channel = "*"
serde = { version = "1", features = ["derive"] }
serde_json = "1"
serde_yaml = "0.9"
tokio = { version = "1", features = ["full"] }
tokio-graceful-shutdown = "0.12"
tracing = "0.1"
tracing-subscriber = "0.3"
triggered = "0.1"
