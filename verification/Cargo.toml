[package]
name = "p2p_storage"
version = "0.1.0"
edition = "2021"
publish = false

[dependencies]
bdk = { version = "0.17", features = ["keys-bip39"] }
chacha20poly1305 = "0.9"
rand = "0.8"
sha256 = "1"
serde = "1"
serde_derive = "1"
serde_json = "1"
tokio = { version = "1", features = ["full"] }
securestore = "0.100"
local-ip-address = "0.5"
dirs-next = "2"
crossterm = "0.25"
tui = "0.19"
text_io = "0.1"
