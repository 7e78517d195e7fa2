[package]
name = "sotone-core"
version = "0.1.0"
edition = "2021"
publish = false

[dependencies]
blake3 = "1"
chrono = "0.4"
cpal = "*"
dirs = "*"
hound = "3.5"
ringbuf = "0.4"
rubato = "*"
serde = { version = "1", features = ["derive"] }
serde_json = "1"
thiserror = "2"
toml_edit = "*"
tracing = "0.1"
ulid = "1"
