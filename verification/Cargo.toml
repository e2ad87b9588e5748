[package]
name = "dataview_rewrite"
version = "0.1.0"
edition = "2021"
publish = false

[dependencies]
anyhow = "1"
async-walkdir = "*"
clap = { version = "4", features = ["derive"] }
futures-lite = "*"
regex = "1"
tokio = { version = "1", features = ["macros", "rt-multi-thread"] }
