[package]
name = "q_bridge"
version = "0.1.0"
edition = "2021"
publish = false

[dependencies]
uuid = { version = "1", features = ["v4"] }
redis = { version = "0.24", features = ["tokio-comp", "streams"] }
tokio = { version = "1", features = ["rt-multi-thread", "macros", "time"] }
serde_json = "1"
actix-web = { version = "4", default-features = false, features = ["macros"] }

[dev-dependencies]
prost = { version = "0.12", default-features = false, features = ["std"] }
