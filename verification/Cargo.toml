[package]
name = "balchug"
version = "0.1.0"
edition = "2021"
publish = false

[dependencies]
binpack2d = "=1.0.1"
instant = "=0.1.13"
allsorts = "=0.17.0"
ab_glyph = "=0.2.32"
serde = { version = "=1.0.229", features = ["derive"] }
serde_json = "=1.0.154"
log = "=0.4.35"
actix-web = { version = "=4.18.1", default-features = false, features = ["macros"] }
actix-cors = "=0.7.2"
tokio = { version = "=1.54.1", features = ["rt-multi-thread", "macros", "fs", "sync"] }
rand = "=0.9.5"
image = { version = "=0.25.10", default-features = false, features = ["png", "jpeg", "webp"] }
webp = "=0.3.1"
zip = { version = "=8.6.0", default-features = false, features = ["zstd", "deflate"] }
zip-extensions = "=0.14.1"
env_logger = "=0.11.11"
