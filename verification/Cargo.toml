[package]
name = "biei"
version = "0.1.0"
edition = "2021"
publish = false

[dependencies]
ab_glyph = "*"
anyhow = "*"
async-trait = "*"
axum = { version = "*", default-features = false, features = ["http1", "tokio"] }
bytes = "*"
chitchat = "*"
clap = { version = "*", features = ["derive", "env"] }
httpdate = "*"
humantime = "*"
image = { version = "*", default-features = false, features = ["png", "jpeg", "webp"] }
maplibre_native = "*"
moka = { version = "*", features = ["sync"] }
prometheus = { version = "*", default-features = false }
rand = "*"
rand_distr = "*"
rand_xoshiro = "*"
reqwest = { version = "*", default-features = false, features = ["json"] }
serde = { version = "*", features = ["derive"] }
serde_json = "*"
tiny-skia = "*"
tokio = { version = "*", features = ["full", "test-util"] }
tracing = "*"
url = "*"
