[package]
name = "ctf_announce"
version = "0.1.0"
edition = "2021"
publish = false

[dependencies]
chrono = "0.4"
select = "0.6"
serde = { version = "1", features = ["derive"] }
serde_json = "1"
reqwest = { version = "0.12", default-features = false, features = ["json"] }
tokio = { version = "1", features = ["rt", "rt-multi-thread", "macros"] }
futures = "0.3"
