[package]
name = "project_euler"
version = "0.1.0"
edition = "2021"
publish = false

[dependencies]
bit-vec = "*"
select = "*"
textwrap = "*"
threadpool = "*"
reqwest = { version = "0.12", default-features = false, features = ["blocking", "rustls-tls"] }
