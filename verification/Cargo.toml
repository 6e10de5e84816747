[package]
name = "bancho_core"
version = "0.1.0"
edition = "2021"
publish = false

[dependencies]
base64 = "=0.22.1"
bcrypt = "=0.15.1"
chrono = "=0.4.45"
hmac = "=0.12.1"
jwt = "=0.16.0"
md5 = "=0.7.0"
rand = "=0.8.8"
serde_json = "=1.0.151"
sha2 = "=0.10.9"
simple-rijndael = "=0.3.2"
uuid = { version = "=1.27.0", features = ["v4"] }

[dev-dependencies]
bancho-packets = "=5.3.1"
