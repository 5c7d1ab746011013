[package]
name = "onnx2webnn"
version = "0.1.0"
edition = "2021"
publish = false

[dependencies]
bytemuck = "=1.25.2"
half = "=2.7.1"
prost = "=0.12.6"
serde_json = "=1.0.154"
thiserror = "=2.0.21"
ureq = "=2.12.1"
webnn-onnx-utils = "=0.1.1"
