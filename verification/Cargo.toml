[package]
name = "tribesim"
version = "0.1.0"
edition = "2021"
publish = false

[dependencies]
rand = "0.8"
rand_distr = "0.4"
rand_xoshiro = "0.6"
serde = { version = "1", features = ["derive"] }
serde_json = "1"
clap = { version = "4", features = ["derive"] }
tokio = { version = "1", features = ["rt-multi-thread", "macros"] }
rocket = { version = "0.5", features = ["json"] }
mysql_async = { version = "*", default-features = false, features = ["minimal"] }
clickhouse = { version = "*", features = ["inserter"] }
