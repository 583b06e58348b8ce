[package]
name = "l2-sequencer"
version = "0.1.0"
edition = "2021"
publish = false

[dependencies]
k256 = "=0.13.4"
serde = { version = "=1.0.229", features = ["derive"] }
serde_json = "=1.0.154"
tokio = { version = "=1.54.1", features = ["full"] }
axum = "=0.7.9"
reqwest = { version = "=0.12.28", default-features = false }
rusqlite = { version = "=0.41.0", features = ["bundled"] }
colored = "=2.2.0"
risc0-zkvm = { version = "=3.0.6", default-features = false }
viuer = { version = "=0.11.0", features = ["print-file"] }

[dev-dependencies]
bincode = "=1.3.3"
