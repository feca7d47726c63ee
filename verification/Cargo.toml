[package]
name = "node_speedtest"
version = "0.1.0"
edition = "2021"
publish = false

[dependencies]
base64 = "=0.22.1"
urlencoding = "=2.1.3"
regex = "=1.13.1"
serde_yaml = "=0.9.34"
flate2 = "=1.1.10"
zip = { version = "=2.6.1", default-features = false, features = ["deflate"] }
serde = { version = "=1.0.229", features = ["derive"] }
serde_json = "=1.0.154"
tokio = { version = "=1.54.1", features = ["rt-multi-thread", "macros", "net", "time", "io-util", "sync"] }
reqwest = { version = "=0.12.28", default-features = false, features = ["rustls-tls", "json", "stream", "multipart", "socks"] }
image = { version = "=0.25.10", default-features = false, features = ["png"] }
ab_glyph = "=0.2.32"
swash = "=0.2.10"
parking_lot = "=0.12.5"
futures-util = "=0.3.34"
rustls = { version = "=0.23.46", default-features = false, features = ["ring", "std", "tls12"] }
tokio-rustls = { version = "=0.26.6", default-features = false, features = ["ring", "tls12"] }
webpki-roots = "=0.26.11"
windows-sys = { version = "=0.61.2", features = ["Win32_Foundation", "Win32_System_SystemInformation", "Win32_System_Time"] }
