[package]
name = "stewart"
version = "0.1.0"
edition = "2021"
publish = false

[dependencies]
envy = "0.4"
futures = "0.3"
humantime = "2"
lazy_static = "1.4"
log = "0.4"
pretty_env_logger = "0.4"
prometheus = { version = "0.10", default-features = false }
serde = { version = "1.0", features = ["derive"] }
serenity = "0.9"
thiserror = "1.0"
tokio = { version = "0.2", features = ["macros", "rt-threaded"] }
warp = { version = "0.2", default-features = false }
