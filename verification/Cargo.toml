[package]
name = "spotify_rust"
version = "0.1.0"
edition = "2021"
publish = false

[dependencies]
anyhow = "1"
directories = "5"
dotenv = "0.15"
env_logger = { version = "0.11", default-features = false }
image = { version = "0.25", default-features = false, features = ["jpeg", "png"] }
librespot = { version = "0.4.2", default-features = false, features = ["rodio-backend"] }
librespot-core = "0.4.2"
librespot-protocol = "0.4.2"
log = "0.4"
md5 = "0.7"
reqwest = { version = "0.12", default-features = false, features = ["json", "rustls-tls"] }
rspotify = { version = "0.13", default-features = false, features = ["client-reqwest", "reqwest-rustls-tls"] }
rusqlite = { version = "0.31", features = ["bundled"] }
serde = { version = "1", features = ["derive"] }
serde_json = "1"
tiny_http = "0.12"
tokio = { version = "1", features = ["full"] }
urlencoding = "2"
webbrowser = "1"
