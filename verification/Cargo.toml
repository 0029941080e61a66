[package]
name = "breakpoint"
version = "0.1.0"
edition = "2021"
publish = false

[dependencies]
anyhow = "*"
base64 = "*"
flate2 = "*"
glob = "*"
hmac-sha512 = "*"
json = "*"
reqwest = { version = "*", default-features = false, features = ["blocking", "rustls-tls"] }
swc_common = "*"
swc_ecma_ast = "*"
swc_ecma_parser = "*"
tar = "*"
url = "*"
