[package]
name = "novelpager"
version = "0.1.0"
edition = "2021"
publish = false

[dependencies]
base64 = "=0.13.1"
deunicode = "*"
html-escape = "*"
itoa = "=1.0.18"
safe-regex = "*"
