[package]
name = "tfc_datatypes"
version = "0.1.0"
edition = "2021"
publish = false

[dependencies]
base64 = "0.22"
bytes = "1"
chrono = { version = "0.4", default-features = false, features = ["alloc", "std"] }
hex = "0.4"
num-derive = "0.4"
num-traits = "0.2"
thiserror = "1"
