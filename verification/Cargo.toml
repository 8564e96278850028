[package]
name = "tarnish"
version = "0.1.0"
edition = "2021"
publish = false

[dependencies]
hex = "*"
log = "*"
reqwest = { version = "*", features = ["blocking"] }
rustyline = "*"
select = "*"
serde = { version = "*", features = ["derive"] }
serde_json = "*"
sha2 = "*"
simple_logger = "*"
toml = "*"
