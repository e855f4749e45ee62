[package]
name = "spf"
version = "0.5.1"
edition = "2021"
publish = false

[dependencies]
ar = "=0.9.0"
cmd-exists = "=0.1.2"
deb-rs = "=0.1.2"
deb-rust = "=0.1.2"
flate2 = "=1.1.10"
glob = "=0.3.4"
hostname = "=0.4.2"
rpm = { version = "0.18", default-features = false }
self-replace = "=1.5.1"
tar = "=0.4.46"
xz2 = "=0.1.7"
