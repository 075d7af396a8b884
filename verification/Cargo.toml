[package]
name = "repo_wire"
version = "0.1.0"
edition = "2021"
publish = false

[dependencies]
bytes = "1"
futures = "0.3"
parking_lot = "0.12"
thiserror = "1"
tokio = { version = "1", features = ["rt", "sync", "io-util", "net", "time"] }
tokio-util = { version = "0.7", features = ["codec"] }

[dev-dependencies]
minicbor = { version = "*", features = ["std"] }
