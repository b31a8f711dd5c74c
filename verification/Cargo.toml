[package]
name = "orage"
version = "0.1.0"
edition = "2021"
publish = false

[dependencies]
time = "0.2"
toml = "0.5"
rand = "0.8"
clap = { version = "4", features = ["derive"] }
tokio = { version = "1", features = ["full"] }
bitcoin = "0.29"
lightning = "0.0.115"
lightning-background-processor = { version = "0.0.115", features = ["futures"] }
lightning-block-sync = { version = "0.0.115", features = ["rpc-client"] }
lightning-net-tokio = "0.0.115"
lightning-persister = "0.0.115"
