[package]
name = "slotmerge"
version = "0.1.0"
edition = "2021"
publish = false

[dependencies]
chrono = "0.4"
kuchiki = "0.8"
notify = "6"
regex = "1"
sha2 = "0.10"
walkdir = "2"
