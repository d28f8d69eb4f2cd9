[package]
name = "iureocr"
version = "0.3.3"
edition = "2021"
publish = false

[dependencies]
anyhow = "*"
base64 = "*"
dirs = "*"
env_logger = "*"
image = { version = "*", default-features = false, features = ["jpeg", "png", "tiff", "bmp", "webp", "gif"] }
log = "*"
lopdf = "*"
pdfium-render = "*"
serde = { version = "*", features = ["derive"] }
serde_json = "*"
tokio = { version = "*", features = ["sync"] }
