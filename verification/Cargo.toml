[package]
name = "sheet_query"
version = "0.1.0"
edition = "2021"
publish = false

[dependencies]
atty = "=0.2.14"
calamine = "=0.22.1"
clap = { version = "=4.6.7", features = ["derive"] }
colored = "=2.2.0"
csv = "=1.4.0"
serde_json = { version = "=1.0.154", features = ["raw_value"] }
