[package]
name = "rocinante"
version = "0.1.0"
edition = "2021"
publish = false

[dependencies]
globset = "=0.4.21"
serde_json = "=1.0.154"
sha2 = "=0.11.1"
similar = "=3.2.1"
serde = { version = "=1.0.229", features = ["derive"] }
toml = "=1.1.8"
serde_yaml_ng = "=0.10.0"
dirs = "=7.0.0"
uuid = { version = "=1.29.0", features = ["v4", "serde"] }
figment = { version = "=0.10.19", features = ["toml", "env"] }
jsonschema = { version = "=0.60.2", default-features = false }
tokio = { version = "1", features = ["rt-multi-thread", "macros", "process", "time", "fs", "io-util", "io-std", "sync"] }
reqwest = { version = "0.12", default-features = false, features = ["json", "stream", "rustls-tls"] }
futures = "0.3"
clap = { version = "4", features = ["derive"] }
anyhow = "1"
eventsource-stream = "*"
grep-regex = "*"
grep-searcher = "*"
ignore = "*"
libc = "*"

[dev-dependencies]
tempfile = "=3.27.0"
