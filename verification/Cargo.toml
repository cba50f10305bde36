[package]
name = "dropmutt_site"
version = "0.1.0"
edition = "2021"
publish = false

[dependencies]
bcrypt = "=0.19.3"
image = { version = "=0.25.10", default-features = false, features = ["bmp", "gif", "jpeg", "png"] }
rand = "=0.9.5"
