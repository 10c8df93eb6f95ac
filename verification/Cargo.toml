[package]
name = "quiz_server"
version = "0.1.0"
edition = "2021"
publish = false

[dependencies]
clap = { version = "*", features = ["derive"] }
futures = "*"
http = "*"
http-body-util = "*"
hyper = { version = "*", features = ["full"] }
hyper-staticfile = "*"
hyper-util = { version = "*", features = ["full"] }
local_ipaddress = "*"
serde = { version = "*", features = ["derive"] }
serde_json = "*"
tabular = "*"
thiserror = "*"
tokio = { version = "*", features = ["full"] }
tokio-stream = "*"
