[package]
name = "coin_spewer"
version = "0.1.0"
edition = "2021"
publish = false

[dependencies]
futures = "*"
itertools = "*"
rand = "*"
reqwest = { version = "*", default-features = false }
structopt = "*"
tokio = { version = "*", features = ["macros", "rt-multi-thread"] }

[dev-dependencies]
serde_json = "*"
