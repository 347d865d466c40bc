[package]
name = "brainjar"
version = "0.1.0"
edition = "2021"
publish = false

[dependencies]
sha2 = "=0.10.9"
hex = "0.4"
anyhow = "=1.0.104"
clap = { version = "=4.6.7", features = ["derive"] }
serde = { version = "=1.0.229", features = ["derive"] }
serde_json = "=1.0.154"
toml = "=0.8.23"
rusqlite = { version = "*", features = ["bundled"] }
graphqlite = "*"
sqlite-vec = "*"
reqwest = { version = "=0.12.28", default-features = false, features = ["json", "rustls-tls"] }
tokio = { version = "=1.54.1", features = ["full"] }
chrono = "=0.4.45"
colored = "=2.2.0"
dirs = "=5.0.1"
walkdir = "=2.5.0"
glob = "=0.3.4"
dialoguer = "=0.11.0"
rustyline = "*"
indicatif = "*"
nucleo-matcher = "*"
libc = "=0.2.191"
zerocopy = "=0.8.63"

[dev-dependencies]
tempfile = "3"
