[package]
name = "blurred"
version = "0.1.0"
edition = "2021"
publish = false

[dependencies]
directories = "*"
fltk = "*"
serde = { version = "1", features = ["derive"] }
serde_json = "1"
