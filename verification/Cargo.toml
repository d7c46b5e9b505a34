[package]
name = "yara-x"
version = "0.1.0"
edition = "2021"
publish = false

[dependencies]
string-interner = "=0.14.0"
walrus = "=0.27.2"
wasmtime = { version = "=45.0.3", default-features = false, features = ["cranelift", "runtime"] }
