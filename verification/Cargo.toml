[package]
name = "lekhani_latex"
version = "0.1.0"
edition = "2021"
publish = false

[dependencies]
regex = "=1.13.1"
serde_json = "=1.0.154"
dirs = "=5.0.1"
image = { version = "0.25", default-features = false, features = ["png"] }
ureq = "3"
