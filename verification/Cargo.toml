[package]
name = "minimessage"
version = "0.1.0"
edition = "2021"
publish = false

[dependencies]
fastsnbt = "*"
serde = { version = "1", features = ["derive"] }
thiserror = "*"
strum = { version = "*", features = ["derive"] }
heck = "*"
syn = { version = "2", features = ["full"] }
quote = "1"
proc-macro2 = "1"
