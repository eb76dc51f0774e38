[package]
name = "folder_search"
version = "0.1.0"
edition = "2021"
publish = false

[dependencies]
regex = "1"
dirs = "*"
once_cell = "*"
serde = { version = "1", features = ["derive"] }
serde_json = "1"
