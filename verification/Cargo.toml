[package]
name = "fusion"
version = "0.1.0"
edition = "2021"
publish = false

[dependencies]
flatbuffers = "*"
futures = "0.3"
rand = "0.9"
tokio = { version = "1", features = ["macros", "rt-multi-thread"] }
zenoh = { version = "1", default-features = false, features = ["transport_tcp", "transport_udp"] }
zenoh-ext = { version = "1", default-features = false }
