[package]
name = "simwatch"
version = "0.1.0"
edition = "2021"
publish = false

[dependencies]
regex = "1"
rstar = "0.12"
geo = "*"
geo-types = "0.7"
chrono = "0.4"
csv = "1"
serde = { version = "1", features = ["derive"] }
serde_json = "1"
geojson = "*"
tokio = { version = "1", features = ["full"] }
reqwest = { version = "0.12", default-features = false, features = ["json", "rustls-tls"] }
toml = "*"
clap = { version = "4", features = ["derive"] }
log = { version = "0.4", features = ["serde"] }
simplelog = "*"
duration-str = "*"
zip = { version = "*", default-features = false, features = ["deflate"] }
