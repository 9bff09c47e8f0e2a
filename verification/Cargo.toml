[package]
name = "ignyx_core"
version = "0.1.0"
edition = "2021"
publish = false

[dependencies]
serde_json = "*"
tokio-tungstenite = "*"
bytes = "*"
futures-util = "*"
http-body-util = "*"
hyper = { version = "*", features = ["server", "http1"] }
hyper-util = { version = "*", features = ["tokio"] }
tokio = { version = "*", features = ["rt-multi-thread", "net", "time", "sync", "macros"] }
pyo3 = "*"
multer = "*"
matchit = "*"
