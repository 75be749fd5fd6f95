[package]
name = "archivist_lib"
version = "0.1.0"
edition = "2021"
publish = false

[dependencies]
vodozemac = "=0.11.1"
aes-gcm = "=0.11.1"
rand = "=0.10.3"
sha2 = "=0.11.0"
rcgen = "=0.13.2"
rustls-pemfile = "=2.2.0"
uuid = { version = "=1.27.0", features = ["v4"] }
chrono = "=0.4.45"
serde = { version = "=1.0.229", features = ["derive"] }
serde_json = "=1.0.151"
reqwest = { version = "=0.12.28", default-features = false, features = ["json", "rustls-tls"] }
tokio = { version = "=1.53.2", features = ["rt-multi-thread", "macros", "time"] }
warp = { version = "=0.4.3", features = ["server"] }
