[package]
name = "crate_report"
version = "0.1.0"
edition = "2021"
publish = false

[dependencies]
clap = { version = "4", features = ["derive"] }
colored = "2"
csv = "1"
proc-macro2 = { version = "1", features = ["span-locations"] }
rayon = "1"
syn = { version = "2", features = ["full", "visit"] }
walkdir = "2"
