[package]
name = "image_optimizer"
version = "0.1.0"
edition = "2021"
publish = false

[dependencies]
anyhow = "1"
image = { version = "0.24", default-features = false, features = ["png", "jpeg"] }
imagequant = "4"
lodepng = "3"
mozjpeg = "0.9"
oxipng = { version = "8", default-features = false }
rayon = "1"
serde = { version = "1", features = ["derive"] }
walkdir = "2"
webp = "0.2"
