[package]
name = "regolith_wallpaper"
version = "0.1.0"
edition = "2021"
publish = false

[dependencies]
anyhow = "=1.0.104"
clap = { version = "=4.6.7", default-features = false, features = ["std", "derive", "help", "usage"] }
directories = "=5.0.1"
futures = { version = "=0.3.34", default-features = false, features = ["std"] }
image = { version = "=0.24.9", default-features = false, features = ["png", "jpeg", "gif", "webp", "bmp", "ico", "tiff"] }
rand = "=0.8.8"
serde = { version = "=1.0.229", features = ["derive"] }
serde_yaml = "=0.9.34"
tokio = { version = "=1.53.2", features = ["fs", "rt-multi-thread", "process", "macros"] }
tokio-stream = { version = "=0.1.19", features = ["fs"] }
tracing = "=0.1.44"
tracing-subscriber = "=0.3.23"
