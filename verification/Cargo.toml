[package]
name = "kse_core"
version = "0.1.0"
edition = "2021"
publish = false

[dependencies]
regex = "=1.13.1"
uuid = { version = "=1.29.0", features = ["v4"] }
serde = { version = "=1.0.229", features = ["derive"] }
serde_json = "=1.0.154"
serde_yaml = "=0.9.34"
git2 = { version = "=0.21.0", default-features = false }
gix = { version = "=0.75.0", default-features = false, features = ["status", "blob-diff", "revision"] }
rusqlite = { version = "=0.41.1", features = ["bundled"] }
quanttide-agent = "=0.1.2"
kstring = "=2.0.2"
