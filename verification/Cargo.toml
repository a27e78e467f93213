[package]
name = "fingers"
version = "0.1.0"
edition = "2021"
publish = false

[dependencies]
rustc_apfloat = "*"
libm = "*"
bytemuck = "*"
rand = "0.5"
rayon = "*"
serde = { version = "*", features = ["derive"] }
serde_json = "*"
clap = "*"
ctrlc = "*"
image = "*"
byteorder = "*"
