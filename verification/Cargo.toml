[package]
name = "apk_manifest"
version = "0.1.0"
edition = "2021"
publish = false

[dependencies]
anyhow = "1"
flutter_rust_bridge = "2"
log = "0.4"
miniz_oxide = "0.8"
