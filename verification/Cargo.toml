[package]
name = "snolc_ng"
version = "0.1.0"
edition = "2021"
publish = false

[dependencies]
base64 = "=0.23.1"
egui = "=0.37.0"
egui_glow = { version = "=0.37.0", features = ["winit"] }
getrandom = "=0.4.3"
glow = "=0.17.0"
glutin = "=0.32.3"
glutin-winit = "=0.5.0"
jni = "=0.22.4"
libc = "=0.2.191"
reqwest = { version = "=0.13.5", features = ["blocking"] }
serde = { version = "=1.0.229", features = ["derive"] }
sha2 = "=0.11.1"
thiserror = "=2.0.21"
toml = { version = "=1.1.8", features = ["preserve_order"] }
winit = "=0.30.13"
zeroize = "=1.9.1"
