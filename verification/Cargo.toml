[package]
name = "kbinxml"
version = "0.1.0"
edition = "2021"
publish = false

[dependencies]
byteorder = "=1.5.0"
encoding = "=0.2.33"
rustc-hex = "=2.1.0"
minidom = "=0.11.1"
quick-xml = "=0.16.1"
serde = "=1.0.229"
