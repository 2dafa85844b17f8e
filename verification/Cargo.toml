[package]
name = "oasis_cbor"
version = "0.1.0"
edition = "2021"
publish = false

[dependencies]
oasis-cbor-value = "=0.5.1"
serde = "=1.0.229"
thiserror = "=2.0.21"
