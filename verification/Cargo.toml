[package]
name = "llamapun"
version = "0.1.0"
edition = "2021"
publish = false

[dependencies]
unidecode = "0.3"
libxml = "0.3"
