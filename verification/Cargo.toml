[package]
name = "flowy_grid"
version = "0.1.0"
edition = "2021"
publish = false

[dependencies]
tokio = { version = "1", features = ["sync"] }
tracing = "0.1"
strum_macros = "0.21"
bytes = "1"
