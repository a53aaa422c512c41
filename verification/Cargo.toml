[package]
name = "vortex_regex"
version = "0.1.0"
edition = "2021"
publish = false

[dependencies]
fsst-rs = "*"
futures = "0.3"
prost = { version = "0.14", default-features = false, features = ["std"] }
regex = "1"
regex-automata = "0.4"
rustc-hash = "2"
tracing = { version = "0.1", default-features = false, features = ["std"] }
