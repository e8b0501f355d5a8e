[package]
name = "stylex_evaluate"
version = "0.1.0"
edition = "2021"
publish = false

[dependencies]
stacker = "*"
swc_core = { version = "*", default-features = false, features = ["ecma_ast"] }
