[package]
name = "typst_lsp"
version = "0.1.0"
edition = "2021"
publish = false

[dependencies]
comemo = "0.4"
futures = "*"
once_cell = "*"
tokio = { version = "*", features = ["full"] }
tower-lsp = "*"
typst = "=0.13.1"
typst-library = "=0.13.1"
