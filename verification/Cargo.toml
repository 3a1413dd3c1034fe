[package]
name = "collage"
version = "0.1.0"
edition = "2021"
publish = false

[dependencies]
html-escape = "0.2"
itoa = "1"
ryu = "1"
itertools = "*"
syn = { version = "2", features = ["full"] }
quote = "1"
proc-macro2 = "1"
proc-macro-error2 = "2"
