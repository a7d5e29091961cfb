[package]
name = "eks"
version = "0.1.0"
edition = "2021"
publish = false

[dependencies]
aes-gcm = "0.10"
hkdf = "0.12"
sha2 = "0.10"
subtle = "2"
postcard = { version = "1", features = ["alloc"] }
ciborium = "0.2"
serde = { version = "1", features = ["derive"] }
chrono = "0.4"
uuid = { version = "1", features = ["v4"] }
secrecy = "0.10"
zeroize = "1"
parking_lot = "0.12"
