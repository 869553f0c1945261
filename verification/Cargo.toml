[package]
name = "kml_merger"
version = "0.1.0"
edition = "2021"
publish = false

[dependencies]
quick-xml = "0.22"
regex = "1"
serde = { version = "1", features = ["derive"] }
serde_json = "1"
actix-web = "4"
actix-multipart = "0.6"
actix-files = "0.6"
futures = "0.3"
