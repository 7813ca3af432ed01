[package]
name = "vocab"
version = "0.1.0"
edition = "2021"
publish = false

[dependencies]
diesel = { version = "=2.3.13", features = ["sqlite"] }
libsqlite3-sys = { version = "=0.35.0", features = ["bundled"] }

[dev-dependencies]
csv = "1"
