[package]
name = "dioscuri"
version = "0.1.0"
edition = "2021"
publish = false

[dependencies]
anyhow = "=1.0.104"
base16ct = { version = "=1.0.0", features = ["alloc"] }
mime = "=0.3.17"
native-tls = "=0.2.18"
rusqlite = { version = "=0.40.2", features = ["bundled"] }
sha2 = "=0.11.0"
time = { version = "=0.3.55", features = ["formatting", "parsing"] }
url = "=2.5.8"
webpki = "=0.22.4"
x509-parser = "=0.18.1"
