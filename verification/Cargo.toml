[package]
name = "promethee"
version = "0.1.0"
edition = "2021"
publish = false

[dependencies]
regex = "1"
convert_case = "*"
strsim = "*"
chrono = "0.4"
log = "0.4"
clap = { version = "4", features = ["derive"] }
colored = "*"
csv = "1"
indicatif = "*"
indicatif-log-bridge = "*"
fern = { version = "0.7", features = ["colored"] }
humantime = "2"
serde = { version = "1", features = ["derive"] }
serde_json = "1"
serde_plain = "1"
serde_ini = "*"
sys-locale = "*"
tempfile = "3"
dunce = "1"
encoding_rs = "0.8"
codepage-437 = "*"
widestring = "1"
phf = { version = "0.11", features = ["macros"] }
winsafe = { version = "*", features = ["advapi", "kernel"] }
