[package]
name = "konachan_wallpaper"
version = "0.1.0"
edition = "2021"
publish = false

[dependencies]
md-5 = "*"
base16ct = { version = "*", features = ["alloc"] }
rand = "0.8"
anyhow = "*"
argh = "*"
indicatif = "*"
reqwest = { version = "*", default-features = false, features = ["json", "stream"] }
serde = { version = "*", features = ["derive"] }
tokio = { version = "*", features = ["full"] }
tokio-stream = "*"
dbus = "*"
dbus-tokio = "*"
notify-rust = "*"
