[package]
name = "blockscan"
version = "0.1.0"
edition = "2021"
publish = false

[dependencies]
atty = "*"
diesel = { version = "*", default-features = false, features = ["sqlite"] }
env_logger = "*"
futures = "*"
libsqlite3-sys = { version = "*", features = ["bundled"] }
log = "*"
oauth1-request = "*"
reqwest = { version = "*", default-features = false, features = ["json"] }
serde = { version = "*", features = ["derive"] }
serde_json = "*"
structopt = "*"
tokio = { version = "*", features = ["macros", "rt", "rt-multi-thread", "sync", "time"] }
