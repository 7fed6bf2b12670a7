[package]
name = "vrchat_osc"
version = "0.1.0"
edition = "2021"
publish = false

[dependencies]
axum = "0.8"
convert_case = "0.8"
futures = "0.3"
hickory-proto = "0.25"
http-body-util = "0.1"
hyper = { version = "1", features = ["client", "http1"] }
hyper-util = { version = "0.1", features = ["tokio"] }
if-addrs = "0.13"
log = "0.4"
mdns-sd = "0.13"
rosc = "0.11"
serde = { version = "1", features = ["derive"] }
serde_json = "1"
socket2 = { version = "0.5", features = ["all"] }
thiserror = "2"
tokio = { version = "1", features = ["full"] }
wildmatch = "2"
