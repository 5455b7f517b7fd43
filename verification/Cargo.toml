[package]
name = "in_place_macro"
version = "0.1.0"
edition = "2021"
publish = false

[dependencies]
syn = { version = "2", features = ["full"] }
proc-macro2 = "1"
quote = "1"
clap = { version = "4", features = ["derive"] }
