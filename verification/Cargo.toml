[package]
name = "smartcalc"
version = "0.1.0"
edition = "2021"
publish = false

[dependencies]
crossterm = "*"
evalexpr = "*"
inline_colorization = "*"
lazy_static = "*"
linked-hash-map = "*"
radix_fmt = "*"
regex = "*"
regex-split = "*"
rug = "*"
serde = { version = "*", features = ["derive"] }
toml = "*"
