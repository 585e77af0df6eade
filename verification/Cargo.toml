[package]
name = "squab"
version = "0.1.0"
edition = "2021"
publish = false

[dependencies]
anyhow = "*"
noodles = { version = "*", features = ["bam", "bgzf", "core", "gff", "sam"] }
thiserror = "*"
tracing = "*"
