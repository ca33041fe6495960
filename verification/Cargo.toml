[package]
name = "titan_fitness_stock"
version = "0.1.0"
edition = "2021"
publish = false

[dependencies]
chrono = "0.4"
clap = { version = "4", features = ["derive"] }
csv = "1"
log = "0.4"
pretty_env_logger = "*"
reqwest = "*"
scraper = "*"
serde = { version = "1", features = ["derive"] }
serde_json = "1"
structsy = "*"
structsy-derive = "*"
tokio = { version = "1", features = ["macros", "rt-multi-thread", "time"] }
