[package]
name = "fast_reverse_proxy"
version = "0.1.0"
edition = "2021"
publish = false

[dependencies]
rand = "=0.10.3"
tokio = { version = "*", features = ["full"] }
actix-web = { version = "*", default-features = false, features = ["macros"] }
actix-web-httpauth = "*"
anyhow = "*"
log = "*"
env_logger = "*"
clap = { version = "*", features = ["derive"] }
reqwest = { version = "=0.13.5", default-features = false, features = ["json", "form"] }
serde = { version = "*", features = ["derive"] }
serde_json = "*"
toml = "*"
