[package]
name = "rust_buck3t_ui"
version = "0.1.0"
edition = "2021"
publish = false

[dependencies]
actix-files = "=0.6.10"
actix-web = { version = "=4.18.1", default-features = false, features = ["macros", "cookies"] }
dotenvy = "=0.15.7"
futures-util = { version = "=0.3.34", default-features = false }
percent-encoding = "=2.3.2"
reqwest = { version = "=0.11.27", default-features = false, features = ["json", "stream"] }
serde = { version = "=1.0.229", features = ["derive"] }
tokio = { version = "=1.54.1", default-features = false, features = ["sync"] }
