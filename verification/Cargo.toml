[package]
name = "depg"
version = "0.1.0"
edition = "2021"
publish = false

[dependencies]
env_logger = "*"
log = "*"
serde = { version = "*", features = ["derive"] }
serde_json = "*"
structopt = "*"
swc_common = "*"
swc_ecma_ast = "*"
swc_ecma_parser = "*"
