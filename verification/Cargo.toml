[package]
name = "imagetor"
version = "0.1.0"
edition = "2021"
publish = false

[dependencies]
image = "0.24"
printpdf = { version = "0.6", features = ["embedded_images"] }
