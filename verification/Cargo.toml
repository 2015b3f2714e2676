[package]
name = "dunnopc"
version = "0.1.0"
edition = "2021"
publish = false

[dependencies]
anyhow = "*"
chromiumoxide = "*"
clap = { version = "*", features = ["derive"] }
futures = "*"
serde_json = "*"
swayipc = "*"
tokio = { version = "*", features = ["macros", "rt-multi-thread"] }
