[package]
name = "async-proto"
version = "0.1.0"
edition = "2021"
publish = false

[dependencies]
bitvec = "=1.1.1"
bytes = "=1.12.1"
bytesize = "=2.7.0"
chrono = { version = "0.4", default-features = false }
either = "1"
futures = "=0.3.34"
git2 = { version = "=0.21.0", default-features = false }
gix-hash = { version = "=0.28.1", default-features = false, features = ["sha1"] }
hematite-nbt = "=0.5.2"
nonempty-collections = "=1.4.0"
rust_decimal = { version = "=1.43.0", default-features = false }
semver = "1"
thiserror = "=2.0.21"
tokio = { version = "=1.54.1", features = ["io-util", "rt", "net"] }
tokio-tungstenite = "=0.30.0"
uuid = "=1.29.1"
