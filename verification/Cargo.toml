[package]
name = "wikigraph"
version = "0.1.0"
edition = "2021"
publish = false

[dependencies]
byteorder = "1"
diesel = { version = "2", features = ["postgres"] }
indicatif = "0.17"
quick-xml = "0.31"
serde = { version = "1", features = ["derive"] }
