[package]
name = "presta_columns"
version = "0.1.0"
edition = "2021"
publish = false

[dependencies]
roxmltree = "=0.21.1"
simdutf8 = "=0.1.5"
chrono = "=0.4.45"
anyhow = "*"
serde = { version = "*", features = ["derive"] }
serde_json = "*"
toml = "*"
base64 = "*"
clap = { version = "*", features = ["derive"] }
tracing = "*"
tracing-subscriber = "*"
arrow = "*"
parquet = { version = "*", default-features = false, features = ["arrow"] }
arrow2 = { version = "*", features = ["io_parquet", "io_json"] }
parquet2 = "*"
reqwest = { version = "*", default-features = false, features = ["query"] }
tokio = { version = "*", features = ["macros", "rt-multi-thread"] }
