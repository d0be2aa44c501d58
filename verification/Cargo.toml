[package]
name = "richat"
version = "0.1.0"
edition = "2021"
publish = false

[dependencies]
prost = "=0.14.4"
prost-types = "=0.14.4"
yellowstone-grpc-proto = "=12.7.0"
tonic = "0.14"
spl-token-2022-interface = "=4.0.0"
arrayvec = "=0.7.8"
smallvec = { version = "=1.16.4", features = ["const_new"] }
solana-pubkey = "=4.4.0"
solana-signature = "=3.6.0"
solana-hash = { version = "=4.7.0", features = ["decode"] }
const-hex = "=1.19.3"
serde = { version = "1", features = ["derive"] }
serde_json = "1"
serde_yaml = "0.9"
clap = { version = "4", features = ["derive"] }
anyhow = "1"
futures = "0.3"
tokio = { version = "1", features = ["full"] }
tracing = "0.1"
indicatif = "0.18"
log = "0.4"
