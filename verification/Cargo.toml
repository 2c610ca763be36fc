[package]
name = "rua"
version = "0.1.0"
edition = "2021"
publish = false

[dependencies]
anyhow = "*"
clap = { version = "*", features = ["derive"] }
colored = "*"
directories = "*"
indexmap = "*"
libflate = "*"
liblzma = "*"
nix = { version = "*", features = ["user"] }
raur = { version = "*", features = ["blocking"] }
rm_rf = "*"
ruzstd = "*"
tar = "*"
