[package]
name = "remores_dl"
version = "0.1.0"
edition = "2021"
publish = false

[dependencies]
scraper = "=0.27.0"
ego-tree = "=0.11.0"
reqwest = { version = "=0.13.5", default-features = false, features = ["json", "query", "form"] }
tokio = { version = "*", features = ["macros", "rt-multi-thread"] }
clap = { version = "*", features = ["derive", "env"] }
serde = { version = "*", features = ["derive"] }
anyhow = "*"
chrono = "*"

[dev-dependencies]
strsim = "=0.11.1"
