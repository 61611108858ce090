[package]
name = "overnvr"
version = "0.1.0"
edition = "2021"
publish = false

[dependencies]
actix = "=0.13.5"
actix-files = "=0.6.10"
actix-identity = "=0.4.0"
actix-web = "=4.18.1"
actix-web-actors = "=4.3.1"
anyhow = "1"
async-trait = "0.1"
bytes = "1"
chrono = { version = "=0.4.45", features = ["serde"] }
futures = "0.3"
futures-util = "0.3"
geo = "=0.20.1"
geo-types = "=0.7.20"
geojson = { version = "=0.22.4", features = ["geo-types"] }
gstreamer = "0.18"
gstreamer-app = "0.18"
hmac = "=0.11.0"
jemallocator = "0.3"
jwt = "=0.15.0"
mongodb = "=2.8.2"
once_cell = "1"
rand = "=0.8.8"
rumqttc = "=0.12.0"
serde = { version = "=1.0.229", features = ["derive"] }
serde_json = { version = "=1.0.154", features = ["raw_value"] }
sha2 = "=0.9.9"
thiserror = "1"
tokio = { version = "1", features = ["full"] }
toml = "=0.5.11"
