[package]
name = "mlink_core"
version = "0.1.0"
edition = "2021"
publish = false

[dependencies]
async-trait = "=0.1.92"
btleplug = "=0.13.5"
futures = "=0.3.34"
mdns-sd = "=0.21.7"
objc2 = "0.5"
objc2-core-bluetooth = { version = "0.2", features = ["all"] }
objc2-foundation = { version = "0.2", features = ["all"] }
ring = "=0.17.14"
rmp-serde = "=1.3.1"
serde = { version = "=1.0.229", features = ["derive"] }
serde_json = "=1.0.154"
thiserror = "=2.0.21"
tokio = { version = "=1.54.1", features = ["full"] }
tracing = "=0.1.44"
uuid = { version = "=1.29.0", features = ["v4"] }
zstd = "=0.13.4"

[dev-dependencies]
tempfile = "=3.27.0"
