[package]
name = "dpf"
version = "0.1.0"
edition = "2021"
publish = false

[dependencies]
hex = "=0.4.3"
k8s-openapi = { version = "=0.29.0", features = ["latest"] }
kube = { version = "=5.0.0", default-features = false }
serde_json = "=1.0.154"
sha2 = "=0.10.9"
