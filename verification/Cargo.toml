[package]
name = "decayfmt"
version = "0.1.0"
edition = "2021"
publish = false

[dependencies]
rand = "0.8"
rayon = "1"
image = { version = "0.25", default-features = false, features = ["png", "jpeg", "gif", "bmp", "ico", "tiff", "webp", "pnm", "tga", "qoi"] }
symphonia = { version = "*", features = ["mp3"] }
hound = "3"
fs2 = "0.4"
