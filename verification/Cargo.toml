[package]
name = "copybara"
version = "0.1.0"
edition = "2021"
publish = false

[dependencies]
git2 = { version = "*", default-features = false }
chrono = { version = "*", default-features = false, features = ["alloc", "std"] }
starlark = "*"
starlark_derive = "*"
allocative = "*"
anyhow = "*"
clap = { version = "*", features = ["derive"] }
