[package]
name = "sql_macros_derive"
version = "0.2.0"
edition = "2021"
publish = false

[dependencies]
darling = "*"
syn = { version = "*", features = ["full", "extra-traits"] }
quote = "*"
proc-macro2 = "*"
