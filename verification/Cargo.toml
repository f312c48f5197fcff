[package]
name = "chr_aln_plot"
version = "0.1.0"
edition = "2021"
publish = false

[dependencies]
clap = { version = "*", features = ["derive"] }
serde = { version = "*", features = ["derive"] }
serde_json = "*"
svg = "*"
rustc-hash = "*"
rayon = "*"
