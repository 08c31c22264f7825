[package]
name = "visual_scripting"
version = "0.1.0"
edition = "2021"
publish = false

[dependencies]
rhai = { version = "*", features = ["f32_float"] }
