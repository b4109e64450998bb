[package]
name = "chia_query"
version = "0.1.0"
edition = "2021"
publish = false

[dependencies]
async-trait = "0.1"
chia = "=0.26.0"
chia-bls = "=0.26.0"
chia-consensus = "=0.26.0"
chia-protocol = "=0.26.0"
chia-ssl = "=0.26.0"
chia-traits = "=0.26.0"
chia-wallet-sdk = { version = "=0.30.0", features = ["native-tls"] }
clvm-utils = "=0.26.0"
clvmr = "=0.14.0"
dig-chainsource-interface = "0.1"
futures-util = "0.3"
hex = "0.4"
log = "0.4"
rand = "=0.8.8"
reqwest = { version = "0.12", default-features = false, features = ["json", "stream"] }
serde = { version = "1", features = ["derive"] }
serde_json = "1"
thiserror = "2"
tokio = { version = "1", features = ["full"] }
tokio-tungstenite = { version = "=0.24.0", features = ["native-tls"] }
