[package]
name = "graphql_client_codegen"
version = "0.1.0"
edition = "2021"
publish = false

[dependencies]
failure = { version = "0.1", default-features = false, features = ["std"] }
itertools = "*"
proc-macro2 = "1"
quote = "1"
syn = "2"
