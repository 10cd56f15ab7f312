[package]
name = "depth_bridge"
version = "0.1.0"
edition = "2021"
publish = false

[dependencies]
image = "0.25"
jni = "0.19"
ndarray = "0.16"
ort = { version = "=2.0.0-rc.13", default-features = false }
