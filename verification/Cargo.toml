[package]
name = "tfrm"
version = "0.1.0"
edition = "2021"
publish = false

[dependencies]
idna = "1"
hcl-rs = "*"
url = "2"
base64 = "0.22"
sha2 = "0.10"
rand = "0.8"
reqwest = { version = "0.12", default-features = false, features = ["json"] }
serde = { version = "1", features = ["derive"] }
serde_json = "1"
toml = "0.8"
clap = { version = "4", features = ["derive"] }
tokio = { version = "1", features = ["macros", "rt-multi-thread", "net", "io-util", "io-std", "time"] }
dirs = "5"
thiserror = "1"
