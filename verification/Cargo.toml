[package]
name = "scalar_expr"
version = "0.1.0"
edition = "2021"
publish = false

[dependencies]
itertools = "0.10"
miette = "5"
pest = "2"
serde = { version = "1", features = ["derive"] }
serde_derive = "1"
thiserror = "1"
