[package]
name = "cepton_pcap"
version = "0.1.0"
edition = "2021"
publish = false

[dependencies]
anyhow = "*"
indicatif = "*"
rust_xlsxwriter = "*"
