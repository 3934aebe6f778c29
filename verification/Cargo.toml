[package]
name = "polarity"
version = "0.1.0"
edition = "2021"
publish = false

[dependencies]
codespan = "0.11"
url = "2"
miette = "7"
thiserror = "1"
