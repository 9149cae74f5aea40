[package]
name = "hehel_zip"
version = "0.3.0"
edition = "2021"
publish = false

[dependencies]
crc32fast = "=1.5.4"
zstd = "=0.13.4"
flate2 = "=1.1.10"
uuid = { version = "=1.29.0", features = ["v4", "v5"] }
chrono = "=0.4.45"
sha2 = "=0.10.9"
urlencoding = "=2.1.3"
base64 = "=0.22.1"
subtle = "=2.6.1"
image = { version = "=0.25.10", default-features = false, features = ["png", "jpeg", "webp"] }
serde = { version = "=1.0.229", features = ["derive"] }
serde_json = "=1.0.154"
zip = "=2.6.1"
dunce = "=1.0.5"
dirs = "=5.0.1"
rusqlite = { version = "=0.32.1", features = ["bundled"] }
r2d2 = "=0.8.10"
r2d2_sqlite = "=0.25.0"
keyring = "=3.6.3"
lru = "=0.12.5"
rand = "=0.8.8"
reqwest = { version = "=0.12.28", default-features = false, features = ["json"] }
tokio = { version = "=1.54.1", features = ["time", "rt-multi-thread"] }
rayon = "1"
open = "5"

[dev-dependencies]
tempfile = "=3.27.0"
