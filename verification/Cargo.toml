[package]
name = "mongodm"
version = "0.1.0"
edition = "2021"
publish = false

[dependencies]
mongodb = "2"
serde = "1"
futures-core = "0.3"
futures-util = "0.3"
async-trait = "0.1"
