[package]
name = "xmltodict_rs"
version = "0.1.0"
edition = "2021"
publish = false

[dependencies]
memchr = "2"
pyo3 = "0.26"
quick-xml = "0.31"
