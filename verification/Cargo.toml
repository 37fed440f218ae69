[package]
name = "comment_search"
version = "0.1.0"
edition = "2021"
publish = false

[dependencies]
clap = { version = "4", features = ["derive"] }
comment-parser = "*"
env_logger = "*"
log = "0.4"
num_cpus = "1"
rusqlite = { version = "*", features = ["bundled"] }
serde = { version = "1", features = ["derive"] }
serde_rusqlite = "*"
sha3 = "0.10"
threadpool = "1"
walkdir = "2"
