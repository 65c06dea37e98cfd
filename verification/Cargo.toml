[package]
name = "swf_bitmap"
version = "0.1.0"
edition = "2021"
publish = false

[dependencies]
inflate = "0.4"
nom = { version = "5.1", default-features = false, features = ["std"] }
