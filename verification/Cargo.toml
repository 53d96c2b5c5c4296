[package]
name = "localdesktop"
version = "0.1.0"
edition = "2021"
publish = false

[dependencies]
anyhow = "1"
image = { version = "0.25", default-features = false, features = ["png", "jpeg", "webp"] }
log = "0.4"
pathdiff = "0.2"
pulldown-cmark = { version = "0.13", default-features = false }
regex = "1"
reqwest = { version = "0.12", default-features = false, features = ["blocking", "rustls-tls"] }
tar = { version = "0.4", default-features = false }
typst-as-lib = { version = "*", default-features = false }
typst-pdf = "*"
xz2 = "0.1"
