[package]
name = "starwars_search"
version = "0.1.0"
edition = "2021"
publish = false

[dependencies]
scraper = "*"
uuid = { version = "*", features = ["v4"] }
reqwest = { version = "*", default-features = false, features = ["stream"] }
tokio = { version = "*", features = ["macros", "rt-multi-thread"] }
futures = "*"
clap = "*"
log = "*"
pretty_env_logger = "*"
serde_json = "*"
