[package]
name = "firmware_updater"
version = "0.1.0"
edition = "2021"
publish = false

[dependencies]
digest = { version = "=0.10.7", default-features = false }
ed25519-dalek = { version = "=2.2.0", default-features = false, features = ["digest"] }
embassy-embedded-hal = "=0.6.0"
embassy-sync = "=0.8.0"
embedded-storage-async = "=0.4.2"
salty = "=0.3.0"
signature = { version = "=2.2.0", default-features = false }

[dev-dependencies]
futures = { version = "=0.3.34", features = ["executor"] }
sha1 = "=0.10.7"
