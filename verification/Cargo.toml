[package]
name = "bloom_parser"
version = "0.1.0"
edition = "2021"
publish = false

[dependencies]
quick-xml = "*"
chrono = "*"
csv = "*"
tinyfiledialogs = "*"
tokio = { version = "*", features = ["macros", "rt-multi-thread"] }
