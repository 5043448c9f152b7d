[package]
name = "viewskater"
version = "0.1.0"
edition = "2021"
publish = false

[dependencies]
serde = { version = "1", features = ["derive"] }
serde_json = "1"
alphanumeric-sort = "*"
rayon = "1.10"
memmap2 = "0.9"
texpresso = "2.0.2"
image = "0.25"
log = "0.4"
zip = { version = "2", default-features = false }
sevenz-rust2 = "0.20"
