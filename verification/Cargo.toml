[package]
name = "parsing_utils"
version = "0.1.0"
edition = "2021"
publish = false

[dependencies]
anyhow = "*"
clap = { version = "*", features = ["derive"] }
crossbeam-channel = "*"
csv = "*"
dashmap = "*"
deunicode = "*"
env_logger = "*"
flate2 = "*"
glob = "*"
indicatif = "*"
log = "*"
num_cpus = "*"
rayon = "*"
regex = "*"
serde_json = { version = "*", features = ["preserve_order"] }
tempfile = "*"
zstd = "*"
