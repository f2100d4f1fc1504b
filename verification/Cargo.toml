[package]
name = "mqtt_broker"
version = "0.1.0"
edition = "2021"
publish = false

[dependencies]
atty = "=0.2.14"
failure = "=0.1.8"
futures-util = "=0.3.34"
mqtt = "=0.1.4"
nom = "=3.2.1"
tokio = { version = "=1.54.1", features = ["rt-multi-thread", "macros", "net", "sync", "time", "io-util", "signal"] }
tracing = "=0.1.44"
tracing-futures = "=0.2.5"
tracing-subscriber = { version = "=0.3.23", features = ["env-filter", "fmt"] }
uuid = { version = "=1.29.0", features = ["v4"] }
