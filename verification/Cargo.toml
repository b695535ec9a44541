[package]
name = "ukmm"
version = "0.1.0"
edition = "2021"
publish = false

[dependencies]
roead = { version = "=1.0.0", default-features = false, features = ["aamp", "byml", "sarc"] }
smartstring = "=1.0.1"
rustc-hash = "=2.1.3"
serde = { version = "=1.0.229", features = ["derive"] }
thiserror = "=1.0.69"
anyhow = "=1.0.104"
rayon = "=1.12.0"
fs-err = "=3.3.2"
log = "=0.4.35"
