[package]
name = "jasmine"
version = "0.1.0"
edition = "2021"
publish = false

[dependencies]
prost = "0.11"
tokio = { version = "1", features = ["macros", "rt-multi-thread", "sync", "time"] }
tonic = "0.8"
zookeeper = "*"
