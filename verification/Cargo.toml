[package]
name = "orderbook"
version = "0.1.0"
edition = "2021"
publish = false

[dependencies]
async-graphql = "7"
async-graphql-axum = "7"
axum = "0.8"
chrono = "=0.4.45"
futures-core = "=0.3.34"
num-bigint = "=0.4.8"
num-traits = "=0.2.19"
once_cell = "=1.21.4"
rand = "=0.8.8"
slab = "=0.4.12"
tokio = { version = "=1.54.1", features = ["macros", "rt-multi-thread", "sync", "time", "net"] }
tokio-stream = { version = "=0.1.19", features = ["sync"] }
uuid = { version = "=1.29.0", features = ["v4"] }
