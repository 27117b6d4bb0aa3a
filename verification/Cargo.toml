[package]
name = "typwrtr"
version = "0.1.0"
edition = "2021"
publish = false

[dependencies]
aho-corasick = "1"
similar = "2"
serde = { version = "1", features = ["derive"] }
serde_json = "1"
chrono = { version = "0.4", default-features = false, features = ["clock"] }
dirs = "5"
hound = "3"
rubato = "0.15"
rusqlite = { version = "0.31", features = ["bundled"] }
tokio = { version = "1", features = ["time", "rt"] }
reqwest = { version = "0.12", default-features = false, features = ["json"] }
