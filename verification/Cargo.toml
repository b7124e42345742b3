[package]
name = "backend_core"
version = "0.1.0"
edition = "2021"
publish = false

[dependencies]
full_moon = "*"
futures = "*"
mongodb = "*"
rbx_binary = "*"
rbx_dom_weak = "*"
rbx_types = "*"
reqwest = { version = "*", default-features = false, features = ["json"] }
serde = { version = "*", features = ["derive"] }
serde_repr = "*"
