[package]
name = "socrates"
version = "0.1.0"
edition = "2021"
publish = false

[dependencies]
axum = "0.8"
http-body-util = "0.1"
hyper = { version = "1", features = ["server", "http1"] }
hyper-util = { version = "0.1", features = ["tokio"] }
serde = { version = "1", features = ["derive"] }
serde_json = { version = "1", features = ["preserve_order"] }
tokio = { version = "1", features = ["full"] }

[dev-dependencies]
serde_json = { version = "1", features = ["preserve_order"] }
