[package]
name = "fancy_tree"
version = "0.1.0"
edition = "2021"
publish = false

[dependencies]
git2 = { version = "=0.21.0", default-features = false }
glob = "=0.3.4"
gengo-language = "=0.14.3"
mlua = { version = "=0.12.2", features = ["lua54", "vendored"] }
clap = { version = "=4.6.7", features = ["derive"] }
either = "=1.19.0"
directories = "=6.0.0"
find-editor = "=1.0.0"
