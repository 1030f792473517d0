[package]
name = "zec_wallet"
version = "0.1.0"
edition = "2021"
publish = false

[dependencies]
async-trait = "=0.1.92"
bip39 = "=3.0.0"
rand = "=0.8.8"
serde = { version = "=1.0.229", features = ["derive"] }
zcash_address = "=0.13.0"
zcash_client_backend = { version = "=0.24.0", features = ["lightwalletd-tonic-transport", "sync"] }
zcash_client_sqlite = "=0.22.0"
zcash_keys = "=0.16.1"
zcash_primitives = "=0.30.1"
zcash_proofs = "=0.30.0"
zcash_protocol = "=0.10.6"
zip32 = "=0.2.1"
zip321 = "=0.9.0"
