[package]
name = "ripsed"
version = "0.1.0"
edition = "2021"
publish = false

[dependencies]
anstream = "*"
anstyle = "1"
clap = { version = "4", features = ["derive"] }
globset = "0.4"
ignore = "0.4"
memchr = "2"
memmap2 = "0.9"
rayon = "1"
regex = "1"
serde = { version = "1", features = ["derive"] }
serde_json = "1"
tempfile = "3"
