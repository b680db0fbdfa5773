[package]
name = "dpos"
version = "0.1.0"
edition = "2021"
publish = false

[dependencies]
frame-support = "=49.0.0"
frame-system = "=49.0.0"
pallet-aura = { version = "=49.0.0", default-features = false }
sp-consensus-aura = "=0.50.0"
sp-runtime = "=49.0.0"

[dev-dependencies]
sp-core = "=43.0.0"
