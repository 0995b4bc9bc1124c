[package]
name = "simple_xlsx_writer"
version = "0.1.0"
edition = "2021"
publish = false

[dependencies]
zip = { version = "0.5", default-features = false, features = ["deflate", "time"] }

[dev-dependencies]
roxmltree = "*"
