[package]
name = "goertzel"
version = "0.1.0"
edition = "2021"
publish = false

[dependencies]
md-5 = "0.10"
rand = "0.9"
uuid = { version = "1", features = ["v4"] }
rustls = { version = "0.23", default-features = false, features = ["ring", "std"] }
webpki-roots = "0.26"
