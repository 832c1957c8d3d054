[package]
name = "plexmaton-tui"
version = "0.1.0"
edition = "2021"
publish = false

[dependencies]
unicode-segmentation = "1"
unicode-width = "0.2"
ratatui = "0.29"
thiserror = "2"
serde = { version = "1", features = ["derive"] }
