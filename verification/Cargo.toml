[package]
name = "fracturize"
version = "0.1.0"
edition = "2021"
publish = false

[dependencies]
clap = { version = "4", features = ["derive"] }
env_logger = "*"
glam = "*"
image = { version = "*", default-features = false, features = ["png"] }
libc = "0.2"
log = "0.4"
openh264 = "*"
png = "*"
pollster = "*"
rand = "0.8"
rand_xoshiro = "0.6"
serde = { version = "1", features = ["derive"] }
toml = "*"
toml_edit = "*"
wgpu = "*"
