[package]
name = "async-prost"
version = "0.1.0"
edition = "2021"
publish = false

[dependencies]
byteorder = "1"
bytes = "1"
either = "1"
futures-core = "0.3"
futures-sink = "0.3"
prost = { version = "*", default-features = false, features = ["std"] }
tokio = { version = "1", default-features = false, features = ["net"] }
