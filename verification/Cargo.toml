[package]
name = "shuffle_bench"
version = "0.1.0"
edition = "2021"
publish = false

[dependencies]
datafusion = { version = "=53.1.0", default-features = false, features = ["sql"] }
serde = { version = "=1.0.229", features = ["derive"] }
serde_json = "=1.0.154"
structopt = "=0.3.26"
tokio = { version = "=1.54.1", features = ["net", "rt-multi-thread", "macros", "time"] }
tonic = { version = "=0.14.9", features = ["transport"] }
