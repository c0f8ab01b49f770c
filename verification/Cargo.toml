[package]
name = "ferrus"
version = "0.3.0"
edition = "2021"
publish = false

[dependencies]
anyhow = "1"
byteorder = "1"
crc32fast = "1"
gtk4 = { version = "*", features = ["v4_10"] }
libadwaita = { version = "*", features = ["v1_5"] }
libc = "0.2"
rand = "0.8"
serde = { version = "1", features = ["derive"] }
serde_json = "1"
udev = "*"
uuid = { version = "1", features = ["v4"] }
