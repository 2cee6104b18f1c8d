[package]
name = "vatsim_open_data"
version = "0.1.0"
edition = "2021"
publish = false

[dependencies]
chrono = "=0.4.45"
geo = { version = "=0.33.1", features = ["serde"] }
geojson = "=1.0.0"
itertools = "=0.15.0"
reqwest = { version = "=0.13.5", default-features = false, features = ["blocking"] }
scraper = "=0.27.0"
serde = { version = "=1.0.229", features = ["derive"] }
serde_json = "=1.0.151"
thiserror = "=2.0.21"
toml = "=1.1.7"
tracing = "=0.1.44"
tracing-subscriber = { version = "=0.3.23", features = ["env-filter"] }
