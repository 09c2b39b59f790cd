[package]
name = "balance_sync"
version = "0.1.0"
edition = "2021"
publish = false

[dependencies]
alloy-primitives = "*"
bitcoin = "*"
chrono = "*"
dotenv = "*"
fantoccini = { version = "*", default-features = false, features = ["rustls-tls"] }
headless_chrome = "*"
reqwest = { version = "*", default-features = false, features = ["json", "rustls-tls"] }
serde = { version = "*", features = ["derive"] }
serde_json = "*"
tokio = { version = "*", features = ["macros", "rt-multi-thread", "time"] }
