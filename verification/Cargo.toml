[package]
name = "vericl"
version = "0.1.0"
edition = "2021"
publish = false

[dependencies]
sha2 = "=0.10.9"
proc-macro2 = { version = "=1.0.107", features = ["span-locations"] }
quote = "=1.0.47"
syn = { version = "=2.0.119", features = ["full", "visit", "fold", "extra-traits"] }
serde_json = "=1.0.154"
easy-smt = "=0.3.2"
cubecl = { version = "=0.10.0", default-features = false }
