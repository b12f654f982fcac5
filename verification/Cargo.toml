[package]
name = "framework"
version = "0.1.0"
edition = "2021"
publish = false

[dependencies]
vulkano = "0.33"
rand = "0.8"
bytemuck = "1"
