[package]
name = "xlsx_batch_reader"
version = "0.1.0"
edition = "2021"
publish = false

[dependencies]
chrono = "*"
quick-xml = "*"
zip = "*"
rust_xlsxwriter = "*"
anyhow = "*"
