[package]
name = "ports_launcher"
version = "0.1.0"
edition = "2021"
publish = false

[dependencies]
chrono = { version = "=0.4.45", default-features = false, features = ["clock", "std"] }
image = { version = "=0.25.10", default-features = false, features = ["png"] }
serde_json = { version = "=1.0.154", features = ["preserve_order"] }
tempfile = "=3.27.0"
ureq = { version = "=3.5.1", features = ["json"] }
