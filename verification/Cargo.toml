[package]
name = "haforu"
version = "0.1.0"
edition = "2021"
publish = false

[dependencies]
read-fonts = "*"
skrifa = "*"
zeno = "*"
harfbuzz_rs = "*"
base64 = "*"
num_cpus = "*"
crc32fast = "*"
zstd = "*"
memmap2 = "*"
serde = { version = "*", features = ["derive"] }
serde_json = "*"
rayon = "*"
