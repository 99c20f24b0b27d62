[package]
name = "termapps"
version = "0.1.0"
edition = "2021"
publish = false

[dependencies]
cursive = "0.20"
easy-args = "0.3"
fasteval = "0.2"
pam = "0.7"
pancurses = "0.17"
strum = { version = "0.24", features = ["derive"] }
