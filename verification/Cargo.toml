[package]
name = "ftdc"
version = "0.1.0"
edition = "2021"
publish = false

[dependencies]
anyhow = "1"
bson = { version = "2", features = ["chrono-0_4"] }
byteorder = "1"
bytes = "1"
chrono = "0.4"
clap = { version = "4", features = ["derive"] }
indexmap = { version = "2", features = ["serde"] }
libflate = "2"
serde_json = "1"
tikv-jemallocator = "*"
varinteger = "1"
