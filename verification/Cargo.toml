[package]
name = "mlx_lm"
version = "0.1.0"
edition = "2021"
publish = false

[dependencies]
mlx-rs = "*"
serde_json = "1"
tokenizers = "*"
