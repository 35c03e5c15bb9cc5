[package]
name = "pagepal"
version = "0.1.0"
edition = "2021"
publish = false

[dependencies]
rayon = "1"
url = "2"
serde = { version = "1", features = ["derive"] }
directories-next = "2"
