[package]
name = "bevy_mod_scripting_derive"
version = "0.1.0"
edition = "2021"
publish = false

[dependencies]
indexmap = "=1.9.3"
proc-macro2 = "=1.0.107"
quote = "=1.0.47"
syn = { version = "=1.0.109", features = ["full", "extra-traits"] }
unicode-ident = "=1.0.27"
