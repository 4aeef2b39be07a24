[package]
name = "shelfie"
version = "0.1.0"
edition = "2021"
publish = false

[dependencies]
anyhow = "*"
chrono = "*"
clap = { version = "*", features = ["derive"] }
colored = "*"
crossbeam = "*"
dialoguer = "*"
dirs = "*"
extractous = "*"
indicatif = "*"
infer = "*"
r2d2 = "*"
r2d2_sqlite = "*"
rayon = "*"
reqwest = { version = "*", features = ["json"] }
rig-core = "*"
rusqlite = "*"
schemars = "*"
serde = { version = "*", features = ["derive"] }
serde_json = "*"
thiserror = "*"
tokio = { version = "*", features = ["rt-multi-thread", "macros", "fs", "io-util", "time", "sync"] }
walkdir = "*"
