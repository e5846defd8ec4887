[package]
name = "anamdb"
version = "0.1.0"
edition = "2021"
publish = false

[dependencies]
bincode = "=1.3.3"
serde = { version = "=1.0.229", features = ["derive"] }
serde_json = "=1.0.154"
thiserror = "=1.0.69"
uuid = { version = "=1.29.0", features = ["v4"] }
async-trait = "=0.1.92"
tokio = { version = "=1.54.1", features = ["rt", "net", "io-util", "time", "sync", "macros"] }
arrow = { version = "=60.1.0", default-features = false }
chrono = { version = "=0.4.45", default-features = false, features = ["clock", "std"] }
reqwest = { version = "*", default-features = false, features = ["json"] }
toml = "*"
