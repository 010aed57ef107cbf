[package]
name = "vostok_pdb_parser"
version = "0.1.0"
edition = "2021"
publish = false

[dependencies]
anyhow = "=1.0.104"
chrono = "=0.4.45"
clap = { version = "=4.6.7", features = ["derive"] }
digest = "=0.10.7"
md-5 = "=0.10.6"
msvc-demangler = "=0.11.0"
objdiff-core = { version = "=2.5.0", features = ["x86"] }
pdb-addr2line = "=0.12.1"
serde = { version = "=1.0.229", features = ["derive"] }
serde_json = "=1.0.154"
sha1 = "=0.10.7"
sha2 = "=0.10.9"
uuid = { version = "=1.29.0", features = ["v4"] }
