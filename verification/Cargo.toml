[package]
name = "rzip_lib"
version = "0.1.0"
edition = "2021"
publish = false

[dependencies]
clap = { version = "4", features = ["derive"] }
compress-tools = "*"
flate2 = "1"
serde = { version = "1", features = ["derive"] }
sevenz-rust = "*"
tar = "0.4"
thiserror = "1"
