[package]
name = "data_manipulation"
version = "0.1.0"
edition = "2021"
publish = false

[dependencies]
bigdecimal = "0.2"
log = "0.4"
native-tls = "0.2"
