[package]
name = "gbam_writer"
version = "0.1.0"
edition = "2021"
publish = false

[dependencies]
crc32fast = "*"
flate2 = "*"
lz4_flex = "*"

[dev-dependencies]
serde_json = "*"
byteorder = "*"
