[package]
name = "ogtp"
version = "0.1.0"
edition = "2021"
publish = false

[dependencies]
zeroize = "1"
libc = "0.2"
nix = { version = "0.30", features = ["net", "socket", "uio", "time"] }

[dev-dependencies]
sha2 = "0.10"
hmac = "0.12"
