[package]
name = "django_rusty_templates"
version = "0.1.0"
edition = "2021"
publish = false

[dependencies]
html-escape = "=0.2.15"
unicode-normalization = "=0.1.26"
num-bigint = "=0.4.8"
num-traits = "=0.2.19"
pyo3 = { version = "0.26", features = ["num-bigint"] }
