[package]
name = "jaim"
version = "2.1.0"
edition = "2021"
publish = false

[dependencies]
serde = { version = "1", features = ["derive"] }
serde_json = "1"
log = "0.4"
env_logger = "*"
tokio = { version = "1", features = ["macros", "rt-multi-thread"] }
zbus = "5"
ureq = { version = "3", features = ["json"] }
encoding_rs = "0.8"
llama-cpp-2 = "*"
