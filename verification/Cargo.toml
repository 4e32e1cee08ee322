[package]
name = "ma_queues"
version = "0.1.0"
edition = "2021"
publish = false

[dependencies]
log = "0.4"
shared_memory = "0.12"
thiserror = "1"
