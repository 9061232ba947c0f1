[package]
name = "factorize"
version = "0.1.0"
edition = "2021"
publish = false

[dependencies]
anyhow = "=1.0.104"
async-trait = "=0.1.92"
clap = { version = "=4.6.7", features = ["derive"] }
globset = "=0.4.21"
image = { version = "=0.25.10", default-features = false, features = ["bmp", "dds", "exr", "ff", "gif", "hdr", "ico", "jpeg", "png", "pnm", "qoi", "tga", "tiff", "webp"] }
napi = { version = "=3.16.1", features = ["async", "tokio_rt", "napi4"] }
napi-derive = "=3.7.0"
notify = "=8.2.1"
regex = "=1.13.1"
tokio = { version = "=1.54.1", features = ["full"] }

[dev-dependencies]
tempfile = "=3.27.0"
