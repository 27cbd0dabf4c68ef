[package]
name = "purrgress"
version = "0.6.0"
edition = "2021"
publish = false

[dependencies]
cursorvec = "*"
petgraph = { version = "*", default-features = false, features = ["graphmap"] }
tokio = { version = "1", features = ["sync", "rt", "macros"] }
rkyv = "0.8"
bytes = "1"
serde = { version = "1", features = ["derive"] }
