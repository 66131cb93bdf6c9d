[package]
name = "doc_format"
version = "0.1.0"
edition = "2021"
publish = false

[dependencies]
regex = "1"
log = "0.4"
once_cell = "1"
