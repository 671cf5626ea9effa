[package]
name = "meteo_core"
version = "0.1.0"
edition = "2021"
publish = false

[dependencies]
aes-gcm = "=0.11.1"
anyhow = "=1.0.104"
chrono = "=0.4.45"
getrandom = "=0.3.4"
heapless = { version = "=0.8.0", features = ["serde"] }
itertools = "=0.14.0"
postcard = { version = "=1.1.3", features = ["alloc", "experimental-derive"] }
serde = { version = "=1.0.229", features = ["derive"] }
tokio = { version = "=1.54.1", features = ["io-util", "macros", "net", "rt-multi-thread", "time"] }
tokio-postgres = { version = "=0.7.18", features = ["with-chrono-0_4"] }
toml = "=0.9.12"

[dev-dependencies]
proptest = "=1.12.0"
