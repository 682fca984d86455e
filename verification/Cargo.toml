[package]
name = "streaming_quotes"
version = "0.1.0"
edition = "2021"
publish = false

[dependencies]
serde_json = "1"
rand = "0.9"
rand_distr = "0.5"
clap = { version = "4", features = ["derive"] }
log = "0.4"
flexi_logger = "*"

[dev-dependencies]
postcard = { version = "1", features = ["use-std"] }
