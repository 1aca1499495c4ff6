[package]
name = "tailwind_fragments"
version = "0.1.0"
edition = "2021"
publish = false

[dependencies]
oxc_ast = "=0.141.0"
oxc_span = "=0.141.0"
