[package]
name = "novasearch"
version = "0.1.0"
edition = "2021"
publish = false

[dependencies]
glob = "0.3"
rusqlite = { version = "0.31", features = ["bundled"] }
notify = "6"
walkdir = "2"
clap = { version = "4", features = ["derive"] }
tokio = { version = "1", features = ["rt-multi-thread", "macros", "time", "sync"] }
ctrlc = "3"
toml = "0.8"
serde = { version = "1", features = ["derive"] }
