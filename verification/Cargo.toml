[package]
name = "serialize_struct"
version = "0.1.0"
edition = "2021"
publish = false

[dependencies]
borsh = "0.10"
borsh-derive = "0.10"
uuid = { version = "1", features = ["v4"] }
sophia = "0.6"
serde = "1"
serde_derive = "1"
serde_json = "1"
syn = { version = "1", features = ["full"] }
quote = "1"
proc-macro2 = "1"
