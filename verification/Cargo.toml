[package]
name = "mpm_core"
version = "0.1.0"
edition = "2021"
publish = false

[dependencies]
anyhow = "1"
bytemuck = { version = "1", features = ["derive"] }
glam = { version = "*", features = ["bytemuck"] }
thiserror = "1"
