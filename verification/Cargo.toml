[package]
name = "touchtype"
version = "0.1.0"
edition = "2021"
publish = false

[dependencies]
rand = "0.8"
anyhow = "1"
thiserror = "1"
relm4 = "0.6"
