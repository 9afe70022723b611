[package]
name = "vtf"
version = "0.1.0"
edition = "2021"
publish = false

[dependencies]
byteorder = "1"
image = { version = "0.23", default-features = false, features = ["dxt", "png"] }
texpresso = "*"
thiserror = "1"
