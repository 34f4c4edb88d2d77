[package]
name = "xml_to_json"
version = "0.1.0"
edition = "2021"
publish = false

[dependencies]
minidom = "0.12.0"
serde_json = "1.0"
