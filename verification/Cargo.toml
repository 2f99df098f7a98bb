[package]
name = "ascii_art_studio"
version = "0.1.0"
edition = "2021"
publish = false

[dependencies]
image = { version = "0.25", default-features = false, features = ["png", "jpeg"] }
imageproc = "0.25"
ab_glyph = "0.2"
serde = { version = "1", features = ["derive"] }
serde_json = "1"
base64 = "0.22"
dirs = "5"
once_cell = "1"
rayon = "1"
tempfile = "3"
libloading = "0.8"
libc = "0.2"
ureq = "2"
zip = { version = "2", default-features = false, features = ["deflate"] }
tokio = { version = "1", features = ["rt-multi-thread", "net", "time", "macros", "sync"] }
axum = "0.7"
async-stream = "0.3"
v4l = "0.14"
