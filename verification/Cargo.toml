[package]
name = "tikv_ctl"
version = "0.1.0"
edition = "2021"
publish = false

[dependencies]
clap = "2"
grpcio = { version = "*", default-features = false }
protobuf = "1.7"
rocksdb = { version = "*", default-features = false }
rustc-serialize = "0.3"

[dev-dependencies]
tempdir = "0.3"
