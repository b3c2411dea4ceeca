[package]
name = "generate_sql"
version = "0.1.2"
edition = "2021"
publish = false

[dependencies]
proc-macro2 = "1"
quote = "1"
